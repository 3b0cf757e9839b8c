use getline::getline;
use getline::LineSpec;

fn text(count: usize) -> Vec<String> {
    (1..=count).map(|n| format!("line {}", n)).collect()
}

fn kept(spec: &str, count: usize) -> Vec<String> {
    let line_spec = LineSpec::from_spec(spec).unwrap();
    getline(&text(count), &line_spec)
}

#[test]
fn three_to_five_of_ten_lines() {
    assert_eq!(kept("3:5", 10), vec!["line 3", "line 4", "line 5"]);
}

#[test]
fn one_line_of_ten() {
    assert_eq!(kept("1", 10), vec!["line 1"]);
    assert_eq!(kept("7", 10), vec!["line 7"]);
    assert_eq!(kept("10", 10), vec!["line 10"]);
}

#[test]
fn range_that_outruns_the_text() {
    assert_eq!(kept("8:20", 10), vec!["line 8", "line 9", "line 10"]);
    assert_eq!(kept("10:4294967295", 10), vec!["line 10"]);
}

#[test]
fn range_behind_the_text() {
    assert_eq!(kept("11", 10), Vec::<String>::new());
    assert_eq!(kept("11:12", 10), Vec::<String>::new());
    assert_eq!(kept("4294967295", 10), Vec::<String>::new());
}

#[test]
fn whole_text() {
    assert_eq!(kept("1:10", 10), text(10));
    assert_eq!(kept("1:4294967295", 10), text(10));
}

#[test]
fn empty_text() {
    assert_eq!(kept("1", 0), Vec::<String>::new());
    assert_eq!(kept("3:5", 0), Vec::<String>::new());
}

#[test]
fn lines_are_kept_unchanged() {
    let lines = vec![
        String::from(""),
        String::from("  two  "),
        String::from("\u{00e9}t\u{00e9}\t3"),
        String::from("4:4"),
    ];
    let line_spec = LineSpec::from_spec("2:3").unwrap();
    assert_eq!(
        getline(&lines, &line_spec),
        vec!["  two  ", "\u{00e9}t\u{00e9}\t3"]
    );
    let first = LineSpec::from_spec("1").unwrap();
    assert_eq!(getline(&lines, &first), vec![""]);
}

#[test]
fn getline_agrees_with_line_in() {
    let lines = text(12);
    for spec in ["1", "3:5", "12", "12:13", "13", "1:12", "6:6", "2:11"] {
        let line_spec = LineSpec::from_spec(spec).unwrap();
        let mut expected: Vec<String> = Vec::new();
        for (index, line) in lines.iter().enumerate() {
            assert_eq!(
                line_spec.selects(index),
                line_spec.line_in(index as u32 + 1)
            );
            if line_spec.line_in(index as u32 + 1) {
                expected.push(line.clone());
            }
        }
        assert_eq!(getline(&lines, &line_spec), expected);
    }
}
