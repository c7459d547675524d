use watcher::collections::{
    extend_paths, find_key, find_path, insert_path, put_key, remove_path, take_key,
};

fn strings(v: &[&str]) -> Vec<String> {
    v.iter().map(|s| s.to_string()).collect()
}

#[test]
fn path_sets_hold_each_path_once() {
    let mut v: Vec<String> = Vec::new();
    assert!(insert_path(&mut v, "/a".to_string()));
    assert!(!insert_path(&mut v, "/a".to_string()));
    assert!(insert_path(&mut v, "/b".to_string()));
    assert_eq!(v, strings(&["/a", "/b"]));
    assert_eq!(find_path(&v, &"/b".to_string()), Some(1));
    assert_eq!(find_path(&v, &"/c".to_string()), None);

    extend_paths(&mut v, &strings(&["/b", "/c", "/c"]));
    assert_eq!(v, strings(&["/a", "/b", "/c"]));

    assert!(remove_path(&mut v, &"/a".to_string()));
    assert!(!remove_path(&mut v, &"/a".to_string()));
    assert_eq!(v, strings(&["/b", "/c"]));
}

#[test]
fn pair_lists_hold_each_key_once() {
    let mut v: Vec<(String, String)> = Vec::new();
    put_key(&mut v, "/to".to_string(), "/from".to_string());
    put_key(&mut v, "/other".to_string(), "/x".to_string());
    put_key(&mut v, "/to".to_string(), "/source".to_string());
    assert_eq!(v.len(), 2);
    let i = find_key(&v, &"/to".to_string()).unwrap();
    assert_eq!(v[i].1, "/source");
    assert_eq!(take_key(&mut v, &"/to".to_string()), Some("/source".to_string()));
    assert_eq!(take_key(&mut v, &"/to".to_string()), None);
    assert_eq!(find_key(&v, &"/to".to_string()), None);
    assert_eq!(v, vec![("/other".to_string(), "/x".to_string())]);
}
