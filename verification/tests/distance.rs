use edit_distance::levenshtein;

fn chars(s: &str) -> Vec<char> {
    s.chars().collect()
}

#[test]
fn distance_test_1() {
    let a = chars("sitting");
    let b = chars("kitten");
    assert_eq!(levenshtein(&a, &b), 3);
}

#[test]
fn distance_test_2() {
    let a = chars("honda");
    let b = chars("hyundai");
    assert_eq!(levenshtein(&a, &b), 3);
}

#[test]
fn distance_test_3() {
    let a = chars("gily");
    let b = chars("geely");
    assert_eq!(levenshtein(&a, &b), 2);
}

#[test]
fn distance_both_empty() {
    let a = chars("");
    let b = chars("");
    assert_eq!(levenshtein(&a, &b), 0);
}

#[test]
fn distance_empty_to_word() {
    let a = chars("");
    let b = chars("abc");
    assert_eq!(levenshtein(&a, &b), 3);
}

#[test]
fn distance_word_to_empty() {
    let a = chars("abc");
    let b = chars("");
    assert_eq!(levenshtein(&a, &b), 3);
}

#[test]
fn distance_identical_words() {
    let a = chars("abc");
    let b = chars("abc");
    assert_eq!(levenshtein(&a, &b), 0);
}

#[test]
fn distance_symmetry_of_first_case() {
    let a = chars("kitten");
    let b = chars("sitting");
    assert_eq!(levenshtein(&a, &b), 3);
}

#[test]
fn distance_symmetric_pairs() {
    for (a, b) in [("honda", "hyundai"), ("gily", "geely"), ("", "abc")] {
        let left = chars(a);
        let right = chars(b);
        assert_eq!(levenshtein(&left, &right), levenshtein(&right, &left));
    }
}

#[test]
fn distance_single_substitution() {
    let a = chars("abc");
    let b = chars("abd");
    assert_eq!(levenshtein(&a, &b), 1);
}

#[test]
fn distance_triangle_on_scenarios() {
    let s = chars("kitten");
    let t = chars("sitting");
    let u = chars("sitter");
    let st = levenshtein(&s, &t);
    let tu = levenshtein(&t, &u);
    let su = levenshtein(&s, &u);
    assert!(su <= st + tu);
}

#[test]
fn distance_over_integers() {
    let a: Vec<u64> = vec![1, 2, 3, 4];
    let b: Vec<u64> = vec![1, 3, 4, 5];
    assert_eq!(levenshtein(&a, &b), 2);
}

#[test]
fn distance_repeated_elements() {
    let a = chars("aaaa");
    let b = chars("aa");
    assert_eq!(levenshtein(&a, &b), 2);
}
