use libgather::base_name;
use libgather::join_path;
use libgather::str_le;

#[test]
fn str_le_orders_paths() {
    assert!(str_le("/a/b", "/a/c"));
    assert!(!str_le("/a/c", "/a/b"));
    assert!(str_le("/a", "/a/b"));
    assert!(!str_le("/a/b", "/a"));
    assert!(str_le("", "/"));
    assert!(str_le("/a/b", "/a/b"));
}

#[test]
fn str_le_is_plain_lexicographic() {
    // '.' (0x2E) comes before '/' (0x2F), so "/a.c" sorts before "/a/b".
    assert!(str_le("/a.c", "/a/b"));
    assert!(!str_le("/a/b", "/a.c"));
}

#[test]
fn base_name_of_file_path() {
    assert_eq!(base_name("/usr/lib/libc.so.6").as_deref(), Some("libc.so.6"));
    assert_eq!(base_name("libm.so").as_deref(), Some("libm.so"));
}

#[test]
fn base_name_of_directory_like_paths() {
    assert_eq!(base_name(""), None);
    assert_eq!(base_name("/"), None);
    assert_eq!(base_name("/usr/lib/"), None);
    assert_eq!(base_name("/usr/lib/.."), None);
    assert_eq!(base_name("/usr/lib/."), None);
}

#[test]
fn join_path_inserts_separator() {
    assert_eq!(join_path("/out", "libc.so.6"), "/out/libc.so.6");
    assert_eq!(join_path("/out/", "libc.so.6"), "/out/libc.so.6");
    assert_eq!(join_path("", "libc.so.6"), "libc.so.6");
}
