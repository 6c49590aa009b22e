use lessons::shapes::Rectangle;

#[test]
fn test_add() {
    assert_eq!(lessons::add(1, 2), 3);
}

#[test]
fn test_rectangle() {
    let rect1 = Rectangle { width: 30, height: 50 };
    let rect2 = Rectangle { width: 10, ..rect1 };
    assert!(rect1.isLargerThan(&rect2), "not greater");
}

#[test]
#[allow(non_snake_case)]
fn test_with_Result() -> Result<(), String> {
    if lessons::add(1, 4) == 5 {
        Ok(())
    } else {
        Err(String::from("unexpected"))
    }
}
