use zlink::idl::flatten::{concat_fields, object_fields, total_field_count};
use zlink::idl::{Field, Type};

#[test]
fn counts_and_concatenates_in_order() {
    let a = Field::new("a", Type::Int, vec![]);
    let b = Field::new("b", Type::String, vec![]);
    let c = Field::new("c", Type::Bool, vec![]);
    let g_a: Vec<&Field> = vec![&a];
    let g_bc: Vec<&Field> = vec![&b, &c];
    let groups: Vec<&[&Field]> = vec![&g_a, &g_bc];

    assert_eq!(total_field_count(&[]), 0);
    assert_eq!(total_field_count(&groups), 3);

    let out = concat_fields(&groups);
    let names: Vec<&str> = out.iter().map(|f| f.name()).collect();
    assert_eq!(names, ["a", "b", "c"]);
}

#[test]
fn concatenates_empty_groups() {
    let groups: Vec<&[&Field]> = vec![];
    let n = total_field_count(&groups);
    let out = concat_fields(&groups);
    assert_eq!(n, 0);
    assert_eq!(out.len(), 0);
}

#[test]
fn object_fields_returns_the_members() {
    let obj = Type::Object(vec![Field::new("x", Type::Int, vec![])]);

    let got = object_fields(&obj);
    assert_eq!(got.len(), 1);
    assert_eq!(got[0].name(), "x");
}

#[test]
#[should_panic(expected = "requires an inline object type")]
fn object_fields_rejects_a_scalar() {
    let scalar = Type::Int;
    object_fields(&scalar);
}

#[test]
fn concat_length_matches_the_count() {
    let a = Field::new("a", Type::Int, vec![]);
    let b = Field::new("b", Type::Int, vec![]);
    let empty: Vec<&Field> = vec![];
    let g1: Vec<&Field> = vec![&a, &b];
    let g2: Vec<&Field> = vec![&b];
    let groups: Vec<&[&Field]> = vec![&g1, &empty, &g2];
    assert_eq!(concat_fields(&groups).len(), total_field_count(&groups));
    let names: Vec<&str> = concat_fields(&groups).iter().map(|f| f.name()).collect();
    assert_eq!(names, ["a", "b", "b"]);
}
