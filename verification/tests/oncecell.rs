use lib::oncecell::OnceCell;

#[test]
fn smoketest() {
    let mut x = OnceCell::new();
    assert_eq!(x.try_borrow(), None);
    assert_eq!(x.try_init(10), Ok(()));
    assert!(x.equals(&OnceCell::new_with_value(10)));
    assert_eq!(x.try_borrow(), Some(&10));
    assert_eq!(x.try_init(20), Err(()));
    assert_eq!(*x.borrow(), 10);
    assert_eq!(x.unwrap(), 10);
}

/// `borrow` needs an initialized cell; a new cell is not.
#[test]
fn borrow_without_value() {
    let x: OnceCell<()> = OnceCell::new();
    assert!(x.try_borrow().is_none());
}

/// `init` needs an uninitialized cell; a cell made with a value is not.
#[test]
fn init_with_value() {
    let mut x = OnceCell::new_with_value(());
    assert_eq!(x.try_init(()), Err(()));
}

/// Comparing needs initialized cells; new cells are not.
#[test]
fn compare_before_init() {
    let a = OnceCell::<()>::new();
    let b = OnceCell::<()>::new();
    assert!(a.try_borrow().is_none() && b.try_borrow().is_none());
}
