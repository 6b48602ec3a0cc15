use wget_faster_lib::paths::{components_of, extension_chars, file_name_chars, push_piece, strip_base_chars};

fn v(s: &str) -> Vec<char> {
    s.chars().collect()
}

fn text(c: Option<Vec<char>>) -> Option<String> {
    c.map(|x| x.into_iter().collect())
}

#[test]
fn file_names_and_extensions() {
    assert_eq!(text(file_name_chars(&v("a/b/c.txt"))), Some("c.txt".to_string()));
    assert_eq!(text(file_name_chars(&v("a/b/"))), Some("b".to_string()));
    assert_eq!(text(file_name_chars(&v("a/b/."))), Some("b".to_string()));
    assert_eq!(text(file_name_chars(&v("a/.."))), None);
    assert_eq!(text(file_name_chars(&v("/"))), None);
    assert_eq!(text(extension_chars(&v("x/archive.tar.gz"))), Some("gz".to_string()));
    assert_eq!(text(extension_chars(&v("x/.profile"))), None);
    assert_eq!(text(extension_chars(&v("x/name."))), Some("".to_string()));
    assert_eq!(text(extension_chars(&v("x/noext"))), None);
}

#[test]
fn pushing_and_stripping() {
    let mut p = v("out");
    push_piece(&mut p, &v("a"));
    assert_eq!(p.iter().collect::<String>(), "out/a");
    let mut q = v("out/");
    push_piece(&mut q, &v("a"));
    assert_eq!(q.iter().collect::<String>(), "out/a");
    let mut e = v("");
    push_piece(&mut e, &v("a"));
    assert_eq!(e.iter().collect::<String>(), "a");
    let mut abs = v("out");
    push_piece(&mut abs, &v("/etc"));
    assert_eq!(abs.iter().collect::<String>(), "/etc");
    assert_eq!(text(strip_base_chars(&v("out//x/./y"), &v("out/"))), Some("x/y".to_string()));
    assert_eq!(text(strip_base_chars(&v("/a/b"), &v("a"))), None);
    assert_eq!(text(strip_base_chars(&v("./a/b"), &v("."))), Some("a/b".to_string()));
    assert_eq!(components_of(&v("/a//b/.")).len(), 3);
}
