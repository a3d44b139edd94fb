use backtest::rolling_window::RollingWindow;


#[test]
fn test_push_and_to_vec() {
    let mut w = RollingWindow::new(3);
    w.push(1);
    w.push(2);
    w.push(3);
    assert_eq!(w.to_vec(), vec![1, 2, 3]);
}

#[test]
fn test_wrap_around() {
    let mut w = RollingWindow::new(3);
    w.push(1);
    w.push(2);
    w.push(3);
    w.push(4); // overwrites 1
    assert_eq!(w.to_vec(), vec![2, 3, 4]);
    assert_eq!(w.len(), 3);
}

#[test]
fn test_wrap_multiple_times() {
    let mut w = RollingWindow::new(2);
    for i in 0..10 {
        w.push(i);
    }
    assert_eq!(w.to_vec(), vec![8, 9]);
    assert_eq!(w.len(), 2);
}

#[test]
fn test_last() {
    let mut w = RollingWindow::new(3);
    assert_eq!(w.last(), None);
    w.push(10);
    assert_eq!(w.last(), Some(&10));
    w.push(20);
    assert_eq!(w.last(), Some(&20));
    w.push(30);
    w.push(40);
    assert_eq!(w.last(), Some(&40));
}

#[test]
fn test_warmup_phase() {
    let mut w = RollingWindow::new(5);
    assert!(w.is_empty());
    w.push(1);
    assert_eq!(w.len(), 1);
    assert_eq!(w.to_vec(), vec![1]);
    w.push(2);
    assert_eq!(w.len(), 2);
    assert_eq!(w.to_vec(), vec![1, 2]);
}

#[test]
fn test_as_slices() {
    let mut w = RollingWindow::new(3);
    w.push(1);
    w.push(2);
    // Not yet full — all in first slice
    let (a, b) = w.as_slices();
    assert_eq!(a, &[1, 2]);
    assert!(b.is_empty());

    w.push(3);
    w.push(4); // wrap
    let (a, b) = w.as_slices();
    // oldest=2 at index 1, then 3 at index 2, then 4 at index 0
    let mut combined = a.to_vec();
    combined.extend_from_slice(b);
    assert_eq!(combined, vec![2, 3, 4]);
}

#[test]
fn test_zero_capacity_treated_as_one() {
    let mut w = RollingWindow::new(0);
    w.push(42);
    assert_eq!(w.to_vec(), vec![42]);
    w.push(99);
    assert_eq!(w.to_vec(), vec![99]);
}

#[test]
fn full_windows_part_at_the_next_slot() {
    let mut w = RollingWindow::new(4);
    for i in 0..6 {
        w.push(i);
    }
    let (a, b) = w.as_slices();
    assert_eq!(a, &[2, 3]);
    assert_eq!(b, &[4, 5]);
}

#[test]
fn zero_capacity_counts_as_one() {
    let (mut a, mut b) = (RollingWindow::new(0), RollingWindow::new(1));
    assert!(a.is_empty() && b.is_empty());
    for i in 0..5 {
        a.push(i);
        b.push(i);
        assert_eq!(a.to_vec(), vec![i]);
        assert_eq!(a.to_vec(), b.to_vec());
        assert_eq!(a.as_slices(), b.as_slices());
        assert_eq!(a.last(), b.last());
    }
}
