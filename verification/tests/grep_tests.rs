use lessons::grep::search;
use lessons::grep::search_case_insensitive;
use lessons::grep::Finder;

#[test]
fn test_search() {
    let file = "hello world\nhello rust\nhello\n";
    let query = "hello";
    assert_eq!(vec!["hello world", "hello rust", "hello"], search(file, query));
}

#[test]
fn search_finds_nothing_without_a_match() {
    let file = "one\ntwo\nthree";
    assert_eq!(search(file, "four"), Vec::<String>::new());
}

#[test]
fn search_is_case_sensitive() {
    let file = "Rust is great\nrust is a fungus\n";
    assert_eq!(vec!["rust is a fungus"], search(file, "rust"));
}

#[test]
fn search_case_insensitive_folds_both_sides() {
    let file = "hello world\nhello rust\nhello\n";
    assert_eq!(
        vec!["hello world", "hello rust", "hello"],
        search_case_insensitive(file, "HELLO")
    );
    let mixed = "Rust is great\nTrust no one\nnothing here\n";
    assert_eq!(
        vec!["Rust is great", "Trust no one"],
        search_case_insensitive(mixed, "rUsT")
    );
}

#[test]
fn finder_needs_file_and_query() {
    let none: Vec<String> = vec!["prog".to_string()];
    assert_eq!(Finder::new(&none, false).err(), Some("no file".to_string()));
    let one = vec!["prog".to_string(), "notes.txt".to_string()];
    assert_eq!(Finder::new(&one, false).err(), Some("no query".to_string()));
    let both = vec![
        "prog".to_string(),
        "notes.txt".to_string(),
        "hello".to_string(),
    ];
    let finder = Finder::new(&both, true).unwrap();
    assert_eq!(finder.file, "notes.txt");
    assert_eq!(finder.query, "hello");
    assert!(finder.isSensitive);
}

#[test]
fn search_splits_lines_like_std() {
    let tricky = "a\r\nb\nc\r";
    let expected: Vec<String> = tricky.lines().map(|l| l.to_string()).collect();
    assert_eq!(expected, vec!["a", "b", "c\r"]);
    assert_eq!(search(tricky, ""), expected);
}
