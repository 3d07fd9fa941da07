use dust::ast::{deq, Deq, Expr, Term, Term1};
use dust::resolve::{
    chars_of, clean_chars, dir_base, find, holds, import_paths, is_absolute, is_http, matches_at,
    path_clean, path_resolve, remove_range, string_of, Reservoir,
};

fn cleaned(path: &str) -> String {
    let mut p = String::from(path);
    path_clean(&mut p);
    p
}

fn resolved(base: &str, path: &str) -> String {
    let mut p = String::from(path);
    path_resolve(base, &mut p);
    p
}

fn import(path: &str) -> Term<'_> {
    Term::Import { path, guard: None, as_: None, fall: None }
}

#[test]
fn http_paths_and_absolute_paths() {
    assert!(is_http("http://a/b"));
    assert!(is_http("https://a/b"));
    assert!(!is_http("httpx://a"));
    assert!(!is_http("./http://a"));
    assert!(is_absolute("/etc/x"));
    assert!(is_absolute("https://a"));
    assert!(!is_absolute("./x"));
    assert!(!is_absolute("x/y"));
    assert!(!is_absolute(""));
}

#[test]
fn directory_and_name() {
    assert_eq!(dir_base("a/b/c.dhall"), ("a/b/", "c.dhall"));
    assert_eq!(dir_base("c.dhall"), ("", "c.dhall"));
    assert_eq!(dir_base("a/"), ("a/", ""));
    assert_eq!(dir_base("/x"), ("/", "x"));
    assert_eq!(dir_base(""), ("", ""));
    assert_eq!(dir_base("é/λ"), ("é/", "λ"));
}

#[test]
fn characters_and_back() {
    let v = chars_of("aλ→😀");
    assert_eq!(v, vec!['a', 'λ', '→', '😀']);
    assert_eq!(string_of(&v), "aλ→😀");
    assert_eq!(string_of(&Vec::new()), "");
}

#[test]
fn finding_and_removing() {
    let v = chars_of("a/b/../c");
    assert!(matches_at(&v, 4, "../"));
    assert!(!matches_at(&v, 3, "../"));
    assert!(!matches_at(&v, 7, "c/"));
    assert!(!matches_at(&v, 9, ""));
    assert!(matches_at(&v, 8, ""));
    assert_eq!(find(&v, "/", 0), Some(1));
    assert_eq!(find(&v, "/", 2), Some(3));
    assert_eq!(find(&v, "/", 7), None);
    assert_eq!(find(&v, "x", 0), None);
    let mut w = v.clone();
    remove_range(&mut w, 2, 7);
    assert_eq!(string_of(&w), "a/c");
    remove_range(&mut w, 1, 1);
    assert_eq!(string_of(&w), "a/c");
}

#[test]
fn needless_parts_of_a_path_are_taken_out() {
    assert_eq!(cleaned("a/b/../c"), "a/c");
    assert_eq!(cleaned("a/./b"), "a/b");
    assert_eq!(cleaned("a/././b"), "a/b");
    assert_eq!(cleaned("a/b/./../c"), "a/c");
    assert_eq!(cleaned("a/b/c/../../d"), "a/d");
    assert_eq!(cleaned("a/../../b"), "../b");
    assert_eq!(cleaned("../x"), "../x");
    assert_eq!(cleaned("./x"), "./x");
    assert_eq!(cleaned("a/b"), "a/b");
    assert_eq!(cleaned(""), "");
    assert_eq!(string_of(&clean_chars(chars_of("x/y/../z"))), "x/z");
}

#[test]
fn paths_are_resolved_against_the_directory_of_the_file() {
    assert_eq!(resolved("dir/file.dhall", "./x.dhall"), "dir/x.dhall");
    assert_eq!(resolved("dir/sub/f.dhall", "../y"), "dir/y");
    assert_eq!(resolved("f.dhall", "y"), "y");
    assert_eq!(resolved("dir/f.dhall", "/etc/x"), "/etc/x");
    assert_eq!(resolved("dir/f.dhall", "https://a/b"), "https://a/b");
    assert_eq!(resolved("https://h/a/b.dhall", "./c.dhall"), "https://h/a/c.dhall");
    assert_eq!(resolved("https://h/a/b.dhall", "../c.dhall"), "https://h/c.dhall");
}

#[test]
fn imports_are_listed_in_the_order_of_writing() {
    let mut fields = Deq::new();
    fields.push_back((deq("a"), Box::new(Expr::Term1(Term1::Term(import("./a"))))));
    fields.push_back((deq("m"), Box::new(Expr::Term1(Term1::Term(import("missing"))))));
    let mut entries = Deq::new();
    entries.push_back(("t", Some(Box::new(Expr::Term1(Term1::Term(import("./t")))))));
    entries.push_back(("u", None));
    let body = Expr::Term1(Term1::Evaluation(
        Box::new(Term1::Term(Term::Record(fields))),
        Term::Text(1, entries),
    ));
    let e = Expr::Let(
        deq((
            "x",
            Some(Box::new(Expr::Term1(Term1::Term(import("./typ"))))),
            Box::new(Expr::Term1(Term1::Term(import("https://h/v")))),
        )),
        Box::new(Expr::Lambda(
            "y",
            Some(Box::new(Expr::Term1(Term1::Term(import("./l"))))),
            Box::new(body),
        )),
    );
    assert_eq!(import_paths(&e), vec!["./typ", "https://h/v", "./l", "./a", "./t"]);
    let none = Expr::Term1(Term1::Term(Term::Embed("./not")));
    assert!(import_paths(&none).is_empty());
}

#[test]
fn holds_tells_what_is_in_a_list() {
    let list = vec![String::from("a"), String::from("b")];
    assert!(holds(&list, "a"));
    assert!(holds(&list, "b"));
    assert!(!holds(&list, "c"));
    assert!(!holds(&Vec::new(), "a"));
}

#[test]
fn reservoir_begins_empty() {
    let r = Reservoir::new(String::from("/cache/"));
    assert_eq!(r.output_dir(), "/cache/");
    assert!(r.enable_resolve());
    assert!(!r.enable_fetch());
    assert_eq!(r.file_count(), 0);
    assert_eq!(r.file("a"), None);
    assert!(!r.has_file("a"));
}

#[test]
fn reservoir_keeps_the_files_that_were_read() {
    let mut r = Reservoir::new(String::from("/cache/"));
    r.store(String::from("a.dhall"), String::from("1"));
    r.store(String::from("b.dhall"), String::from("2"));
    assert_eq!(r.file_count(), 2);
    assert_eq!(r.file("a.dhall"), Some("1"));
    assert_eq!(r.file("b.dhall"), Some("2"));
    assert_eq!(r.file_at(1), ("b.dhall", "2"));
    assert!(r.has_file("a.dhall"));
    assert!(!r.has_file("c.dhall"));
    r.store(String::from("a.dhall"), String::from("3"));
    assert_eq!(r.file_count(), 2);
    assert_eq!(r.file("a.dhall"), Some("3"));
    assert_eq!(r.file_at(0), ("a.dhall", "3"));
    r.set_resolve(false);
    r.set_fetch(true);
    assert!(!r.enable_resolve());
    assert!(r.enable_fetch());
}

#[test]
fn fetched_files_lie_under_the_output_directory() {
    let r = Reservoir::new(String::from("/cache/"));
    assert_eq!(r.real_path("https://h/a.dhall"), "/cache/https://h/a.dhall");
    assert_eq!(r.real_path("dir/a.dhall"), "dir/a.dhall");
}

#[test]
fn addresses_are_fetched_once() {
    let mut r = Reservoir::new(String::from("/cache/"));
    assert_eq!(r.fetch_arguments(), None);
    r.register("https://h/a/f.dhall", "./x.dhall");
    r.register("https://h/a/f.dhall", "./x.dhall");
    r.register("https://h/a/f.dhall", "https://k/y.dhall");
    r.register("local/f.dhall", "./z.dhall");
    let args = r.fetch_arguments().unwrap();
    assert_eq!(
        args,
        vec![
            "--no-progress-meter",
            "--create-dirs",
            "--output-dir",
            "/cache/",
            "https://h/a/x.dhall",
            "--output",
            "https://h/a/x.dhall",
            "https://k/y.dhall",
            "--output",
            "https://k/y.dhall",
        ]
    );
    assert_eq!(r.fetch_arguments(), None);
    r.begin();
    r.register("https://h/a/f.dhall", "./x.dhall");
    r.register("https://h/a/f.dhall", "./w.dhall");
    let args = r.fetch_arguments().unwrap();
    assert_eq!(args[4..], ["https://h/a/w.dhall", "--output", "https://h/a/w.dhall"]);
}
