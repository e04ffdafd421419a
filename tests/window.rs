use plant_esp32::window::SampleWindow;

#[test]
fn window_starts_empty() {
    let w = SampleWindow::new();
    assert_eq!(w.len(), 0);
    assert_eq!(w.to_vec(), Vec::<u32>::new());
    assert_eq!(w.mean(), None);
}

#[test]
fn window_keeps_push_order() {
    let mut w = SampleWindow::new();
    w.push(3);
    w.push(1);
    w.push(2);
    assert_eq!(w.to_vec(), vec![3, 1, 2]);
    assert_eq!(w.len(), 3);
}

#[test]
fn window_holds_exactly_sixty() {
    let mut w = SampleWindow::new();
    for v in 0..60u32 {
        w.push(v);
    }
    assert_eq!(w.len(), 60);
    assert_eq!(w.to_vec(), (0..60u32).collect::<Vec<u32>>());
}

#[test]
fn window_keeps_latest_sixty_after_more_pushes() {
    let mut w = SampleWindow::new();
    for v in 0..75u32 {
        w.push(v);
    }
    assert_eq!(w.len(), 60);
    assert_eq!(w.to_vec(), (15..75u32).collect::<Vec<u32>>());
}

#[test]
fn window_mean_of_equal_samples() {
    let mut w = SampleWindow::new();
    w.push(1800);
    w.push(1800);
    assert_eq!(w.mean(), Some(1800));
}

#[test]
fn window_mean_rounds_down() {
    let mut w = SampleWindow::new();
    w.push(1);
    w.push(2);
    assert_eq!(w.mean(), Some(1));
    w.push(u32::MAX);
    assert_eq!(w.mean(), Some(((1u64 + 2 + u32::MAX as u64) / 3) as u32));
}

#[test]
fn window_mean_of_largest_samples() {
    let mut w = SampleWindow::new();
    for _ in 0..80 {
        w.push(u32::MAX);
    }
    assert_eq!(w.mean(), Some(u32::MAX));
}
