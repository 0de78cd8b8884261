use mediatools::listing::{rank_chars, rank_paths, sorted_order, Rank};
use mediatools::paths::SourceFile;

fn file(list: &[&str]) -> SourceFile {
    SourceFile { path: list.join("/"), parts: list.iter().map(|s| s.to_string()).collect() }
}

fn chars(s: &str) -> Vec<char> {
    s.chars().collect()
}

fn listed(files: &[SourceFile]) -> Vec<String> {
    let owned: Vec<SourceFile> =
        files.iter().map(|f| SourceFile { path: f.path.clone(), parts: f.parts.clone() }).collect();
    sorted_order(&owned).into_iter().map(|i| owned[i].path.clone()).collect()
}

#[test]
fn characters_decide_the_rank() {
    assert!(matches!(rank_chars(&chars("a"), &chars("b")), Rank::Before));
    assert!(matches!(rank_chars(&chars("b"), &chars("a")), Rank::After));
    assert!(matches!(rank_chars(&chars("ab"), &chars("ab")), Rank::Same));
    assert!(matches!(rank_chars(&chars("a"), &chars("ab")), Rank::Before));
    assert!(matches!(rank_chars(&chars("ab"), &chars("a")), Rank::After));
    assert!(matches!(rank_chars(&chars(""), &chars("")), Rank::Same));
    assert!(matches!(rank_chars(&chars("Z"), &chars("a")), Rank::Before));
    assert!(matches!(rank_chars(&chars("10"), &chars("9")), Rank::Before));
}

#[test]
fn components_decide_before_characters() {
    let a = vec![chars("a"), chars("z")];
    let b = vec![chars("a-b")];
    assert!(matches!(rank_paths(&a, &b), Rank::Before));
    assert!(matches!(rank_paths(&b, &a), Rank::After));
    assert!(matches!(rank_paths(&a, &a), Rank::Same));
    let short = vec![chars("a")];
    assert!(matches!(rank_paths(&short, &a), Rank::Before));
}

#[test]
fn listing_is_sorted_by_path() {
    let files = vec![
        file(&["d", "10.mkv"]),
        file(&["d", "b.mkv"]),
        file(&["d", "2.mkv"]),
        file(&["d", "B.mkv"]),
        file(&["d", "a.mkv"]),
        file(&["d", "1.mkv"]),
    ];
    assert_eq!(sorted_order(&files), vec![5, 0, 2, 3, 4, 1]);
    assert_eq!(
        listed(&files),
        vec!["d/1.mkv", "d/10.mkv", "d/2.mkv", "d/B.mkv", "d/a.mkv", "d/b.mkv"]
    );
}

#[test]
fn listing_of_nothing_and_of_one() {
    let none: Vec<SourceFile> = Vec::new();
    assert!(sorted_order(&none).is_empty());
    assert_eq!(sorted_order(&vec![file(&["x"])]), vec![0]);
}

#[test]
fn enumeration_order_leaves_no_trace() {
    let first = vec![file(&["d", "c"]), file(&["d", "a"]), file(&["d", "b"]), file(&["d", "a b"])];
    let second = vec![file(&["d", "a b"]), file(&["d", "b"]), file(&["d", "c"]), file(&["d", "a"])];
    assert_eq!(listed(&first), listed(&second));
    assert_eq!(listed(&first), vec!["d/a", "d/a b", "d/b", "d/c"]);
}

#[test]
fn listing_agrees_with_sorted_paths() {
    let names = ["z", "a", "A", "a.b", "a-b", "ab", "é", "10", "9", "_", "~", " x"];
    let files: Vec<SourceFile> = names.iter().map(|n| file(&["dir", n])).collect();
    let mut expected: Vec<std::path::PathBuf> =
        names.iter().map(|n| std::path::Path::new("dir").join(n)).collect();
    expected.sort_unstable();
    let expected: Vec<String> =
        expected.iter().map(|p| p.to_string_lossy().into_owned()).collect();
    assert_eq!(listed(&files), expected);
}
