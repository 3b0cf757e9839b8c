use getline::args::{parse_args, ArgsError};
use getline::linespec::ParseError;

fn command(words: &[&str]) -> Vec<String> {
    words.iter().map(|word| String::from(*word)).collect()
}

#[test]
fn one_argument_is_the_range() {
    let line_spec = parse_args(&command(&["getline", "3:12"])).unwrap();
    assert_eq!((line_spec.start(), line_spec.end()), (3, 12));
    let single = parse_args(&command(&["getline", "4"])).unwrap();
    assert_eq!((single.start(), single.end()), (4, 4));
}

#[test]
fn wrong_number_of_arguments() {
    assert_eq!(
        parse_args(&command(&[])).unwrap_err(),
        ArgsError::ArgumentCount
    );
    assert_eq!(
        parse_args(&command(&["getline"])).unwrap_err(),
        ArgsError::ArgumentCount
    );
    assert_eq!(
        parse_args(&command(&["getline", "3", "5"])).unwrap_err(),
        ArgsError::ArgumentCount
    );
    assert_eq!(
        parse_args(&command(&["getline", "x", "y", "z"])).unwrap_err(),
        ArgsError::ArgumentCount
    );
}

#[test]
fn invalid_range_argument_gives_no_range() {
    assert_eq!(
        parse_args(&command(&["getline", "5:3"])).unwrap_err(),
        ArgsError::Spec(ParseError::InvalidRange)
    );
    assert_eq!(
        parse_args(&command(&["getline", "0:5"])).unwrap_err(),
        ArgsError::Spec(ParseError::InvalidStart)
    );
    assert_eq!(
        parse_args(&command(&["getline", "a:5"])).unwrap_err(),
        ArgsError::Spec(ParseError::InvalidSpec)
    );
    assert_eq!(
        parse_args(&command(&["getline", ""])).unwrap_err(),
        ArgsError::Spec(ParseError::InvalidSpec)
    );
}

#[test]
fn program_name_is_not_read() {
    let line_spec = parse_args(&command(&["5:3", "3:5"])).unwrap();
    assert_eq!((line_spec.start(), line_spec.end()), (3, 5));
    assert!(parse_args(&command(&["", "1"])).is_ok());
}

#[test]
fn args_error_messages() {
    assert_eq!(
        ArgsError::ArgumentCount.message(),
        "Invalid number of arguments"
    );
    assert_eq!(
        ArgsError::Spec(ParseError::InvalidSpec).message(),
        "Invalid line spec"
    );
    assert_eq!(
        ArgsError::Spec(ParseError::InvalidStart).message(),
        "Line number must start at 1"
    );
    assert_eq!(
        ArgsError::Spec(ParseError::InvalidRange).message(),
        "End line before start line"
    );
}
