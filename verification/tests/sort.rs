use tokei::sort::{sort_stats, UnknownCategory};
use tokei::{Sort, Stats};

#[test]
fn category_names() {
    assert_eq!(Sort::from_name("blanks"), Ok(Sort::Blanks));
    assert_eq!(Sort::from_name("comments"), Ok(Sort::Comments));
    assert_eq!(Sort::from_name("code"), Ok(Sort::Code));
    assert_eq!(Sort::from_name("files"), Ok(Sort::Files));
    assert_eq!(Sort::from_name("lines"), Ok(Sort::Lines));
}

#[test]
fn unknown_category_is_an_error() {
    assert_eq!(Sort::from_name("size"), Err(UnknownCategory));
    assert_eq!(Sort::from_name(""), Err(UnknownCategory));
    assert_eq!(Sort::from_name("Code"), Err(UnknownCategory));
    assert_eq!(Sort::from_name("code "), Err(UnknownCategory));
    assert_eq!(Sort::from_name("cod"), Err(UnknownCategory));
}

#[test]
fn sort_stats_by_lines() {
    let mut stats = Vec::new();
    for (name, lines) in [("a", 3), ("b", 9), ("c", 3), ("d", 1), ("e", 9)] {
        let mut one = Stats::new(name);
        one.lines = lines;
        one.code = lines;
        stats.push(one);
    }
    sort_stats(&mut stats, Sort::Lines);
    let names: Vec<&str> = stats.iter().map(|one| one.name.as_str()).collect();
    assert_eq!(names, vec!["b", "e", "a", "c", "d"]);
}
