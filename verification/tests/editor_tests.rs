use sysprog::line_editor::{Command, ErrorType, FileGod, LineGod, parse_command};

fn lines_of(src: &[&str]) -> Vec<String> {
    src.iter().map(|s| s.to_string()).collect()
}

#[test]
fn insert_at_default_position() {
    let mut g = LineGod::new(lines_of(&["b", "c"]));
    g.insert(None, lines_of(&["a"])).unwrap();
    let all: Vec<&str> = g.fetch_all().iter().map(|s| s.as_str()).collect();
    assert_eq!(all, vec!["a", "b", "c"]);
}

#[test]
fn insert_in_the_middle_and_out_of_range() {
    let mut g = LineGod::new(lines_of(&["a", "d"]));
    g.insert(Some(1), lines_of(&["b", "c"])).unwrap();
    let all: Vec<&str> = g.fetch_all().iter().map(|s| s.as_str()).collect();
    assert_eq!(all, vec!["a", "b", "c", "d"]);
    assert!(matches!(g.insert(Some(9), lines_of(&["x"])), Err(ErrorType::RangeError)));
    assert_eq!(g.fetch_all().len(), 4);
}

#[test]
fn append_extends_the_buffer() {
    let mut g = LineGod::new(lines_of(&["a"]));
    g.append(lines_of(&["b", "c"])).unwrap();
    let all: Vec<&str> = g.fetch_all().iter().map(|s| s.as_str()).collect();
    assert_eq!(all, vec!["a", "b", "c"]);
}

#[test]
fn fetch_lines_ranges() {
    let g = LineGod::new(lines_of(&["a", "b", "c"]));
    assert_eq!(g.fetch_lines(None).unwrap().unwrap(), "a\nb\nc");
    assert_eq!(g.fetch_lines(Some((1, 2))).unwrap().unwrap(), "b\nc");
    assert_eq!(g.fetch_lines(Some((1, 1))).unwrap().unwrap(), "b");
    assert!(matches!(g.fetch_lines(Some((2, 1))), Err(ErrorType::RangeError)));
    assert!(matches!(g.fetch_lines(Some((0, 3))), Err(ErrorType::RangeError)));
    let empty = LineGod::new(Vec::new());
    assert!(matches!(empty.fetch_lines(None), Err(ErrorType::FileEmpty)));
}

#[test]
fn find_joins_matching_lines() {
    let g = LineGod::new(lines_of(&["alpha", "beta", "gamma", "abc"]));
    assert_eq!(g.find("a").unwrap().unwrap(), "alpha\nbeta\ngamma\nabc");
    assert_eq!(g.find("ab").unwrap().unwrap(), "abc");
    assert_eq!(g.find("zzz").unwrap().unwrap(), "");
}

#[test]
fn parse_command_forms() {
    assert!(matches!(parse_command("i 3"), Ok(Command::Insert(Some(3)))));
    assert!(matches!(parse_command("i"), Ok(Command::Insert(None))));
    assert!(matches!(parse_command("i x"), Ok(Command::Insert(None))));
    assert!(matches!(parse_command("a"), Ok(Command::Append)));
    assert!(matches!(parse_command("p 1 2"), Ok(Command::Print(1, 2))));
    assert!(matches!(parse_command("p"), Err(ErrorType::ArgCountErr)));
    assert!(matches!(parse_command("p x 2"), Err(ErrorType::TypeErr)));
    assert!(matches!(parse_command("p 1"), Err(ErrorType::ArgCountErr)));
    match parse_command("f needle") {
        Ok(Command::Find(s)) => assert_eq!(s, "needle"),
        other => panic!("unexpected {:?}", other),
    }
    assert!(matches!(parse_command("f"), Err(ErrorType::ArgCountErr)));
    assert!(matches!(parse_command("s"), Ok(Command::Save)));
    assert!(matches!(parse_command("q"), Ok(Command::Quit)));
    assert!(matches!(parse_command(""), Err(ErrorType::CmdErr)));
    assert!(matches!(parse_command("zap"), Err(ErrorType::CmdErr)));
}

#[test]
fn file_god_holds_the_path() {
    let f = FileGod::new("notes.txt".to_string());
    assert_eq!(f.path(), "notes.txt");
}
