use shapemaker::{enabled_features, Toggleable};

#[test]
fn no_optional_feature_is_enabled() {
    assert!(enabled_features().is_empty());
}

#[test]
fn toggling_flips_a_flag() {
    let mut b = false;
    b.toggle();
    assert!(b);
    b.toggle();
    assert!(!b);
}
