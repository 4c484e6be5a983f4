use cap_history::identity::{bytes_equal, Identity};

#[test]
fn management_identity_is_empty() {
    let id = Identity::management();
    assert!(id.as_bytes().is_empty());
    assert!(id.same(&Identity::new(Vec::new())));
}

#[test]
fn management_text_parses_to_no_bytes() {
    let id = Identity::from_text("aaaaa-aa").expect("the management principal is well formed");
    assert_eq!(id.as_bytes(), &Vec::<u8>::new());
    assert!(id.same(&Identity::management()));
}

#[test]
fn router_text_parses_to_its_bytes() {
    let text = "rrkah-fqaaa-aaaaa-aaaaq-cai";
    let id = Identity::from_text(text).expect("a well formed principal");
    let expected = ic_kit::Principal::from_text(text).unwrap();
    assert_eq!(id.as_bytes().as_slice(), expected.as_slice());
    assert_eq!(id.as_bytes(), &vec![0u8, 0, 0, 0, 0, 0, 0, 1, 1, 1]);
    assert_ne!(id.as_bytes().as_slice(), text.as_bytes());
}

#[test]
fn text_that_is_no_principal_gives_none() {
    assert!(Identity::from_text("not-a-principal").is_none());
    assert!(Identity::from_text("").is_none());
    assert!(Identity::from_text("rrkah-fqaaa-aaaaa-aaaaq-caj").is_none());
}

#[test]
fn same_compares_bytes() {
    let a = Identity::new(vec![1, 2, 3]);
    let b = Identity::new(vec![1, 2, 3]);
    let c = Identity::new(vec![1, 2, 4]);
    let d = Identity::new(vec![1, 2]);
    assert!(a.same(&b));
    assert!(!a.same(&c));
    assert!(!a.same(&d));
    assert!(!d.same(&a));
    assert_eq!(a, b);
    assert_ne!(a, c);
}

#[test]
fn duplicate_keeps_bytes() {
    let a = Identity::new(vec![5, 6, 7, 8]);
    let b = a.duplicate();
    assert!(a.same(&b));
    assert_eq!(b.as_bytes(), &vec![5u8, 6, 7, 8]);
    assert_eq!(a.clone(), a);
}

#[test]
fn bytes_equal_on_vectors() {
    assert!(bytes_equal(&vec![], &vec![]));
    assert!(bytes_equal(&vec![1, 2], &vec![1, 2]));
    assert!(!bytes_equal(&vec![1, 2], &vec![2, 1]));
    assert!(!bytes_equal(&vec![1], &vec![1, 0]));
}
