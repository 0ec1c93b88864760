use zvote_core::field::FieldElement;

const MODULUS: [u8; 32] = [
    1, 0, 0, 0, 237, 48, 45, 153, 27, 249, 76, 9, 252, 152, 70, 34, 0, 0, 0, 0, 0, 0, 0, 0, 0, 0,
    0, 0, 0, 0, 0, 64,
];

const MODULUS_LESS_ONE: [u8; 32] = [
    0, 0, 0, 0, 237, 48, 45, 153, 27, 249, 76, 9, 252, 152, 70, 34, 0, 0, 0, 0, 0, 0, 0, 0, 0, 0,
    0, 0, 0, 0, 0, 64,
];

const MODULUS_LESS_TWO: [u8; 32] = [
    255, 255, 255, 255, 236, 48, 45, 153, 27, 249, 76, 9, 252, 152, 70, 34, 0, 0, 0, 0, 0, 0, 0,
    0, 0, 0, 0, 0, 0, 0, 0, 64,
];

fn small(b: u8) -> [u8; 32] {
    let mut r = [0u8; 32];
    r[0] = b;
    r
}

#[test]
fn from_repr_accepts_values_below_the_modulus() {
    assert!(FieldElement::from_repr(small(0)).is_some());
    assert!(FieldElement::from_repr(MODULUS_LESS_ONE).is_some());
    assert_eq!(FieldElement::from_repr(MODULUS_LESS_ONE).unwrap().to_repr(), MODULUS_LESS_ONE);
}

#[test]
fn from_repr_rejects_the_modulus_and_above() {
    assert!(FieldElement::from_repr(MODULUS).is_none());
    assert!(FieldElement::from_repr([255u8; 32]).is_none());
}

#[test]
fn small_elements_have_one_byte_set() {
    assert_eq!(FieldElement::zero().to_repr(), [0u8; 32]);
    assert_eq!(FieldElement::one().to_repr(), small(1));
    assert_eq!(FieldElement::from_u8(2).to_repr(), small(2));
    assert_eq!(FieldElement::from_u8(255).to_repr(), small(255));
}

#[test]
fn lt_is_the_order_of_the_integers() {
    let a = FieldElement::from_repr({
        let mut r = [0u8; 32];
        r[0] = 9;
        r[1] = 1;
        r
    })
    .unwrap();
    let b = FieldElement::from_repr({
        let mut r = [0u8; 32];
        r[0] = 1;
        r[1] = 2;
        r
    })
    .unwrap();
    assert!(a.lt(&b));
    assert!(!b.lt(&a));
    assert!(!a.lt(&a));
    assert!(FieldElement::zero().lt(&FieldElement::one()));
    let top = FieldElement::from_repr(MODULUS_LESS_ONE).unwrap();
    assert!(b.lt(&top));
}

#[test]
fn plus_adds_and_wraps_at_the_modulus() {
    let three = FieldElement::from_u8(3);
    let four = FieldElement::from_u8(4);
    assert_eq!(three.plus(&four).to_repr(), small(7));
    let carry = FieldElement::from_u8(255).plus(&FieldElement::one());
    let mut expected = [0u8; 32];
    expected[1] = 1;
    assert_eq!(carry.to_repr(), expected);
    let top = FieldElement::from_repr(MODULUS_LESS_ONE).unwrap();
    assert_eq!(top.plus(&FieldElement::one()).to_repr(), [0u8; 32]);
    assert_eq!(top.plus(&three).to_repr(), small(2));
}

#[test]
fn minus_subtracts_and_wraps_at_zero() {
    let three = FieldElement::from_u8(3);
    let four = FieldElement::from_u8(4);
    assert_eq!(four.minus(&three).to_repr(), small(1));
    assert_eq!(three.minus(&four).to_repr(), MODULUS_LESS_ONE);
    assert_eq!(FieldElement::zero().minus(&FieldElement::from_u8(2)).to_repr(), MODULUS_LESS_TWO);
}

#[test]
fn negated_is_the_additive_inverse() {
    assert_eq!(FieldElement::one().negated().to_repr(), MODULUS_LESS_ONE);
    assert_eq!(FieldElement::from_u8(2).negated().to_repr(), MODULUS_LESS_TWO);
    assert_eq!(FieldElement::zero().negated().to_repr(), [0u8; 32]);
    let x = FieldElement::from_u8(77);
    assert_eq!(x.plus(&x.negated()).to_repr(), [0u8; 32]);
}
