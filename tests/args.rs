use tp1_rust::args::parse_args;

fn args(list: &[&str]) -> Vec<String> {
    list.iter().map(|s| s.to_string()).collect()
}

#[test]
fn one_txt_file_is_accepted() {
    assert_eq!(parse_args(&args(&["prog", "tables/game.txt"])), Ok(()));
    assert_eq!(parse_args(&args(&["prog", ".txt"])), Ok(()));
}

#[test]
fn argument_count_is_checked() {
    assert_eq!(parse_args(&args(&["prog"])), Err("ERROR: Not enough arguments".to_string()));
    assert_eq!(parse_args(&args(&[])), Err("ERROR: Not enough arguments".to_string()));
    assert_eq!(
        parse_args(&args(&["prog", "a.txt", "b.txt"])),
        Err("ERROR: Too many arguments passed".to_string())
    );
}

#[test]
fn file_must_end_in_txt() {
    let expected = Err("ERROR: Arguments should be entered in format: -- <file.txt>".to_string());
    assert_eq!(parse_args(&args(&["prog", "board.csv"])), expected);
    assert_eq!(parse_args(&args(&["prog", "txt"])), expected);
    assert_eq!(parse_args(&args(&["prog", "board.TXT"])), expected);
    assert_eq!(parse_args(&args(&["prog", "board.txt "])), expected);
}
