use dice::typing::TyBasic;
use dice::typing::TyStarlarkValue;
use dice::typing::TyUser;
use dice::typing::TyUserError;
use dice::typing::TyUserFields;
use dice::typing::TyUserIndex;
use dice::typing::ANY;

const FRUIT: u64 = 1;
const PLANT: u64 = 2;

fn fruit_base() -> TyStarlarkValue {
    TyStarlarkValue { id: FRUIT, callable: false, indexable: false, iter_item: None, methods: vec![(20, 21)] }
}

fn fruit(name: &str, id: u64) -> TyUser {
    TyUser::new(
        name.to_string(),
        fruit_base(),
        vec![TyBasic::StarlarkValue(PLANT)],
        id,
        TyUserFields::no_fields(),
        None,
        None,
        None,
    )
    .unwrap()
}

#[test]
fn test_intersect_with_abstract_type() {
    let apple = fruit("apple", 10);
    assert!(apple.intersects_with(TyBasic::StarlarkValue(PLANT)));
    assert!(!apple.intersects_with(TyBasic::StarlarkValue(99)));
    assert!(!apple.intersects_with(TyBasic::Custom(PLANT)));
}

#[test]
fn test_ty_user_intersects_with_base_starlark_value() {
    let pear = fruit("pear", 11);
    assert!(pear.intersects_with(TyBasic::StarlarkValue(FRUIT)));
    let apple = fruit("apple", 10);
    assert!(TyUser::intersects(&pear, &fruit("pear", 11)));
    assert!(!TyUser::intersects(&pear, &apple));
}

#[test]
fn ty_user_refinements_need_base_support() {
    let mk = |callable, index, iter_item| {
        TyUser::new(
            "t".to_string(),
            fruit_base(),
            vec![],
            3,
            TyUserFields::unknown(),
            callable,
            index,
            iter_item,
        )
    };
    assert_eq!(mk(Some(1), None, None).err(), Some(TyUserError::CallableNotCallable("t".to_string())));
    let ix = TyUserIndex { index: 4, result: 5 };
    assert_eq!(mk(None, Some(ix), None).err(), Some(TyUserError::IndexableNotIndexable("t".to_string())));
    assert_eq!(mk(None, None, Some(6)).err(), Some(TyUserError::IterableNotIterable("t".to_string())));
    assert_eq!(
        mk(Some(1), Some(ix), None).err(),
        Some(TyUserError::CallableNotCallable("t".to_string()))
    );
}

#[test]
fn ty_user_operations() {
    let base = TyStarlarkValue { id: 7, callable: true, indexable: true, iter_item: Some(8), methods: vec![] };
    let ix = TyUserIndex { index: 4, result: 5 };
    let t = TyUser::new("t".to_string(), base, vec![], 3, TyUserFields::no_fields(), Some(1), Some(ix), None)
        .unwrap();
    assert!(t.is_callable());
    assert_eq!(t.iter_item(), Some(8));
    assert_eq!(t.index(4), Some(5));
    assert_eq!(t.index(ANY), Some(5));
    assert_eq!(t.index(9), None);
    let plain = TyUser::new("p".to_string(), fruit_base(), vec![], 6, TyUserFields::no_fields(), None, None, None)
        .unwrap();
    assert_eq!(plain.index(9), None);
    let base = TyStarlarkValue { id: 7, callable: false, indexable: true, iter_item: None, methods: vec![] };
    let listy = TyUser::new("l".to_string(), base, vec![], 8, TyUserFields::no_fields(), None, None, None).unwrap();
    assert_eq!(listy.index(9), Some(ANY));
    assert!(!t.fields.unknown);
}

#[test]
fn ty_user_attributes() {
    let mut fields = TyUserFields::no_fields();
    fields.known = vec![(30, 31), (20, 99)];
    let t = TyUser::new("rec".to_string(), fruit_base(), vec![], 4, fields, None, None, None).unwrap();
    assert_eq!(t.attribute(20), Some(21));
    assert_eq!(t.attribute(30), Some(31));
    assert_eq!(t.attribute(40), None);
    assert_eq!(t.as_name(), "rec");
    let open = TyUser::new("p".to_string(), fruit_base(), vec![], 5, TyUserFields::unknown(), None, None, None).unwrap();
    assert_eq!(open.attribute(40), Some(ANY));
}

#[test]
fn ty_user_equality_is_by_id() {
    assert!(fruit("apple", 10) == fruit("apple", 10));
    assert!(fruit("apple", 10) != fruit("apple", 12));
}
