use git_master::sets::TextSet;

#[test]
fn text_sets_hold_each_text_once() {
    let mut set = TextSet::new();
    assert!(set.is_empty());
    assert!(set.insert("main".to_string()));
    assert!(!set.insert("main".to_string()));
    assert!(set.insert("dev".to_string()));
    assert_eq!(set.len(), 2);
    assert!(set.insert("Zed".to_string()));
    assert_eq!(set.to_vec(), vec!["Zed".to_string(), "dev".to_string(), "main".to_string()]);
    assert!(set.remove("Zed"));
    assert!(set.remove("main"));
    assert_eq!(set.len(), 1);
    assert!(!set.contains("main"));
    set.clear();
    assert!(set.is_empty());
}
