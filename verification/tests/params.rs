use cykusz_kernel::params::{get, init, Params};

#[test]
fn params_split_on_whitespace_and_first_equals() {
    let p = init(" root=/dev/sda1\tquiet  init==/bin/sh\nx= =y root=/dev/sdb ");
    assert_eq!(get(&p, "root"), Some(&b"/dev/sdb".to_vec()));
    assert_eq!(get(&p, "init"), Some(&b"=/bin/sh".to_vec()));
    assert_eq!(get(&p, "x"), Some(&Vec::new()));
    assert_eq!(get(&p, ""), Some(&b"y".to_vec()));
    assert_eq!(get(&p, "quiet"), None);
    assert_eq!(get(&p, "nothing"), None);
}

#[test]
fn params_empty_line() {
    let p = init("");
    assert_eq!(get(&p, "a"), None);
}

#[test]
fn params_put_then_get() {
    let mut p = Params::new();
    assert!(p.get(b"k").is_none());
    p.put(b"k", b"v1");
    p.put(b"k", b"v2");
    assert_eq!(p.get(b"k"), Some(&b"v2".to_vec()));
}
