use openstranded_plugin_api::{Registry, ServiceError};

#[test]
fn test_registry_add_and_get() {
    let mut reg = Registry::new();
    reg.add_file("items", "items_edible.ron", vec![1, 2, 3]);
    reg.add_file("items", "items_material.ron", vec![4, 5, 6]);

    assert_eq!(reg.file("items", "items_edible.ron").unwrap(), &[1, 2, 3]);
    assert_eq!(reg.domain_entries("items").unwrap().len(), 2);
}

#[test]
fn test_registry_file_not_found() {
    let reg = Registry::new();
    let err = reg.file("nonexistent", "foo.ron").unwrap_err();
    assert!(matches!(err, ServiceError::FileNotFound { .. }));
}

#[test]
fn test_registry_domain_not_found() {
    let reg = Registry::new();
    let err = reg.domain("nonexistent").unwrap_err();
    assert!(matches!(err, ServiceError::RegistryDomainNotFound(..)));
}

#[test]
fn registry_read_after_write_replaces_old_bytes() {
    let mut reg = Registry::new();
    reg.add_file("items", "a.ron", vec![1]);
    reg.add_file("items", "a.ron", vec![9, 9]);
    assert_eq!(reg.file("items", "a.ron").unwrap(), &[9, 9]);
    assert_eq!(reg.domain_entries("items").unwrap().len(), 1);
}

#[test]
fn registry_add_keeps_other_files() {
    let mut reg = Registry::new();
    reg.add_file("items", "a.ron", vec![1]);
    reg.add_file("recipes", "a.ron", vec![2]);
    reg.add_file("items", "b.ron", vec![3]);
    assert_eq!(reg.file("items", "a.ron").unwrap(), &[1]);
    assert_eq!(reg.file("recipes", "a.ron").unwrap(), &[2]);
    assert_eq!(reg.file("items", "b.ron").unwrap(), &[3]);
    assert!(reg.file("recipes", "b.ron").is_err());
}

#[test]
fn registry_domain_count() {
    let mut reg = Registry::default();
    assert!(reg.is_empty());
    assert_eq!(reg.len(), 0);
    reg.add_file("items", "a.ron", vec![]);
    assert_eq!(reg.len(), 1);
    reg.add_file("items", "b.ron", vec![]);
    assert_eq!(reg.len(), 1);
    reg.add_file("recipes", "c.ron", vec![]);
    assert_eq!(reg.len(), 2);
    assert!(!reg.is_empty());
    assert!(reg.has_domain("items"));
    assert!(reg.has_domain("recipes"));
    assert!(!reg.has_domain("sounds"));
    let mut names = reg.domain_names();
    names.sort();
    assert_eq!(names, vec!["items", "recipes"]);
}

#[test]
fn registry_domain_entries_list_each_file_with_its_bytes() {
    let mut reg = Registry::new();
    reg.add_file("items", "x.ron", vec![7, 8]);
    reg.add_file("items", "y.ron", vec![9]);
    let mut entries = reg.domain_entries("items").unwrap();
    entries.sort_by(|a, b| a.filename.cmp(&b.filename));
    assert_eq!(entries[0].filename, "x.ron");
    assert_eq!(entries[0].data, vec![7, 8]);
    assert_eq!(entries[1].filename, "y.ron");
    assert_eq!(entries[1].data, vec![9]);
    let err = reg.domain_entries("sounds").unwrap_err();
    match err {
        ServiceError::RegistryDomainNotFound(name) => assert_eq!(name, "sounds"),
        other => panic!("unexpected error {other:?}"),
    }
}

#[test]
fn registry_domain_gives_the_files_of_a_domain() {
    let mut reg = Registry::new();
    reg.add_file("items", "x.ron", vec![1, 2]);
    let files = reg.domain("items").unwrap();
    assert_eq!(files.len(), 1);
    assert_eq!(files.get("x.ron"), Some(&vec![1, 2]));
    assert!(files.get("y.ron").is_none());
}

#[test]
fn registry_file_not_found_names_domain_and_file() {
    let mut reg = Registry::new();
    reg.add_file("items", "x.ron", vec![1]);
    match reg.file("items", "y.ron").unwrap_err() {
        ServiceError::FileNotFound { domain, filename } => {
            assert_eq!(domain, "items");
            assert_eq!(filename, "y.ron");
        }
        other => panic!("unexpected error {other:?}"),
    }
}

#[test]
fn registry_clone_is_independent() {
    let mut reg = Registry::new();
    reg.add_file("items", "x.ron", vec![1]);
    let copy = reg.clone();
    reg.add_file("items", "x.ron", vec![2]);
    assert_eq!(copy.file("items", "x.ron").unwrap(), &[1]);
    assert_eq!(reg.file("items", "x.ron").unwrap(), &[2]);
}

#[test]
fn registry_domain_names_in_creation_order() {
    let mut reg = Registry::new();
    reg.add_file("sounds", "a.ogg", vec![1]);
    reg.add_file("items", "b.ron", vec![2]);
    reg.add_file("sounds", "c.ogg", vec![3]);
    reg.add_file("recipes", "d.ron", vec![4]);
    assert_eq!(reg.domain_names(), vec!["sounds", "items", "recipes"]);
}

#[test]
fn registry_file_count_after_add() {
    let mut reg = Registry::new();
    reg.add_file("items", "a.ron", vec![1]);
    assert_eq!(reg.domain("items").unwrap().len(), 1);
    reg.add_file("items", "a.ron", vec![2]);
    assert_eq!(reg.domain("items").unwrap().len(), 1);
    reg.add_file("items", "b.ron", vec![3]);
    assert_eq!(reg.domain("items").unwrap().len(), 2);
}
