use vdpm::utils::hash;

#[test]
fn test_hash() {
    println!("{}", hash(&String::from("vdpm")));
    assert!(2047530091333027188 == hash(&String::from("vdpm")))
}

#[test]
fn hash_differs_for_different_text() {
    assert_ne!(hash("vdpm"), hash("vdpn"));
    assert_eq!(hash("vdpm"), hash(&String::from("vdpm")));
}

