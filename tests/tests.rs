use rust_fun::{add, mult, sub};

#[test]
fn test_add() {
    assert_eq!(add(10, 10), 20);
    assert_eq!(add(-5, 10), 5);
}

#[test]
fn test_sub() {
    assert_eq!(sub(5, 10), -5);
    assert_eq!(sub(100, 100), 0);
}

#[test]
fn test_mult() {
    assert_eq!(mult(7, 8), 56);
    assert_eq!(mult(5, -10), -50);
}
