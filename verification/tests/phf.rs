use pruner::phf::{same_bytes, same_numbers, Fmph, Functions, KeySet, NippyJarError};

fn keys() -> Vec<Vec<u8>> {
    (0u32..500).map(|n| n.to_be_bytes().to_vec()).collect()
}

#[test]
fn index_needs_keys() {
    let set = Fmph::new();
    assert_eq!(set.get_index(b"key"), Err(NippyJarError::PHFMissingKeys));
    assert_eq!(Fmph::default().get_index(b"key"), Err(NippyJarError::PHFMissingKeys));
}

#[test]
fn every_key_gets_its_own_index() {
    let keys = keys();
    let refs: Vec<&[u8]> = keys.iter().map(|key| key.as_slice()).collect();
    let mut set = Fmph::new();
    assert_eq!(set.add_keys(&refs), Ok(()));

    let mut seen = vec![false; keys.len()];
    for key in &refs {
        let index = set.get_index(key).unwrap().unwrap() as usize;
        assert!(index < keys.len());
        assert!(!seen[index]);
        seen[index] = true;
    }
}

#[test]
fn repeated_key_fails_and_keeps_the_set() {
    let keys = keys();
    let refs: Vec<&[u8]> = keys.iter().map(|key| key.as_slice()).collect();
    let mut set = Fmph::new();
    assert_eq!(set.add_keys(&[b"one", b"two", b"one"]), Err(NippyJarError::PHFBuildFailed));
    assert_eq!(set.get_index(b"one"), Err(NippyJarError::PHFMissingKeys));

    assert_eq!(set.add_keys(&refs), Ok(()));
    let index = set.get_index(refs[17]);
    assert_eq!(set.add_keys(&[b"one", b"two", b"one"]), Err(NippyJarError::PHFBuildFailed));
    assert_eq!(set.get_index(refs[17]), index);
}

#[test]
fn sets_compare_by_their_functions() {
    let keys = keys();
    let refs: Vec<&[u8]> = keys.iter().map(|key| key.as_slice()).collect();
    let mut one = Fmph::new();
    let mut two = Fmph::new();
    assert!(one.same(&two));
    one.add_keys(&refs).unwrap();
    assert!(!one.same(&two));
    assert!(!two.same(&one));
    two.add_keys(&refs).unwrap();
    assert!(one.same(&two));
    assert!(one == two);
    two.add_keys(&refs[..100]).unwrap();
    assert!(!one.same(&two));
    assert!(one != two);
    assert!(Fmph::new() == Fmph::new());
    assert!(Functions::Fmph(Fmph::new()) == Functions::Fmph(Fmph::new()));
    assert!(Functions::Fmph(one) != Functions::Fmph(two));
    assert!(Functions::Fmph(Fmph::new()) != Functions::Unused);
}

#[test]
fn bytes_of_a_set() {
    let keys = keys();
    let refs: Vec<&[u8]> = keys.iter().map(|key| key.as_slice()).collect();
    let mut set = Fmph::new();
    assert_eq!(set.to_bytes(), Some(vec![]));
    set.add_keys(&refs).unwrap();
    let bytes = set.to_bytes().unwrap();
    assert!(!bytes.is_empty());
    assert_eq!(set.to_bytes(), Some(bytes));
    assert!(matches!(Functions::Fmph(set), Functions::Fmph(_)));
}

#[test]
fn lists_compare_by_content() {
    assert!(same_numbers(&vec![1, 2, 3], &vec![1, 2, 3]));
    assert!(!same_numbers(&vec![1, 2, 3], &vec![1, 2]));
    assert!(!same_numbers(&vec![1, 2, 3], &vec![1, 2, 4]));
    assert!(same_numbers(&vec![], &vec![]));
    assert!(same_bytes(&vec![7, 8], &vec![7, 8]));
    assert!(!same_bytes(&vec![7, 8], &vec![8, 7]));
}
