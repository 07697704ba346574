use brainfuck::{AddressingError, Memory};

#[test]
fn expanding_starts_with_one_default_cell() {
    let m = Memory::expanding(9i128);
    assert_eq!(m.get_pointer(), 0);
    assert_eq!(m.get_at(0), Ok(&9));
    assert_eq!(m.get_at(1), Err(AddressingError::OutOfBounds(1, 1)));
}

#[test]
fn expanding_grows_to_the_right() {
    let mut m = Memory::expanding(0i128);
    m.set_at_pointer(4).unwrap();
    assert_eq!(m.move_pointer(5), Ok(()));
    assert_eq!(m.get_pointer(), 5);
    assert_eq!(m.get_at(0), Ok(&4));
    assert_eq!(m.get_at(5), Ok(&0));
    assert_eq!(m.get_at(6), Err(AddressingError::OutOfBounds(6, 6)));
}

#[test]
fn expanding_grows_to_the_left() {
    let mut m = Memory::expanding(0i128);
    m.set_at_pointer(4).unwrap();
    assert_eq!(m.move_pointer(-3), Ok(()));
    assert_eq!(m.get_pointer(), 0);
    assert_eq!(m.get_at(3), Ok(&4));
    assert_eq!(m.get_at(4), Err(AddressingError::OutOfBounds(4, 4)));
    assert_eq!(m.get_at_pointer(), Ok(&0));
}

#[test]
fn move_left_and_back_restores_the_cell() {
    let mut m = Memory::expanding(0i128);
    m.set_at_pointer(7).unwrap();
    assert_eq!(m.prev(), Ok(()));
    assert_eq!(m.get_at_pointer(), Ok(&0));
    assert_eq!(m.next(), Ok(()));
    assert_eq!(m.get_pointer(), 1);
    assert_eq!(m.get_at_pointer(), Ok(&7));
    assert_eq!(m.move_pointer(-4), Ok(()));
    assert_eq!(m.move_pointer(4), Ok(()));
    assert_eq!(m.get_at_pointer(), Ok(&7));
}

#[test]
fn fixed_refuses_moves_outside() {
    let mut m = Memory::fixed(vec!['a', 'b', 'c']);
    assert_eq!(m.prev(), Err(AddressingError::Underflow));
    assert_eq!(m.get_pointer(), 0);
    assert_eq!(m.move_pointer(2), Ok(()));
    assert_eq!(m.get_at_pointer(), Ok(&'c'));
    assert_eq!(m.next(), Err(AddressingError::Overflow));
    assert_eq!(m.get_pointer(), 2);
    assert_eq!(m.move_pointer(-2), Ok(()));
    assert_eq!(m.get_at_pointer(), Ok(&'a'));
}

#[test]
fn fixed_empty_has_no_cell() {
    let mut m: Memory<char> = Memory::fixed(vec![]);
    assert_eq!(m.get_at_pointer(), Err(AddressingError::OutOfBounds(0, 0)));
    assert_eq!(m.next(), Err(AddressingError::Overflow));
    assert_eq!(m.prev(), Err(AddressingError::Underflow));
}

#[test]
fn set_at_checks_bounds() {
    let mut m = Memory::fixed(vec![1i128, 2, 3]);
    assert_eq!(m.set_at(1, 20), Ok(()));
    assert_eq!(m.get_at(1), Ok(&20));
    assert_eq!(m.set_at(3, 30), Err(AddressingError::OutOfBounds(3, 3)));
    assert_eq!(m.get_at(2), Ok(&3));
}

#[test]
fn set_pointer_jumps() {
    let mut m = Memory::fixed(vec!['x', 'y', 'z']);
    m.set_pointer(2);
    assert_eq!(m.get_pointer(), 2);
    assert_eq!(m.get_at_pointer(), Ok(&'z'));
    assert_eq!(m.set_at_pointer('w'), Ok(()));
    assert_eq!(m.get_at(2), Ok(&'w'));
}
