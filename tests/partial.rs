use sketches::partial::{Bar, Foo};

#[test]
fn counterparts_are_equal() {
    assert!(Foo::F1 == Bar::B1);
    assert!(Foo::F2 == Bar::B2);
    assert!(Foo::F1 != Bar::B2);
    assert!(Foo::F2 != Bar::B1);
}

#[test]
fn vectors_of_counterparts_are_equal() {
    let vf = vec![Foo::F1, Foo::F2];
    let vb = vec![Bar::B1, Bar::B2];
    assert!(vf == vb);
    assert!(vec![Foo::F2, Foo::F2] != vb);
}
