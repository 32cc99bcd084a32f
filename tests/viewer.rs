use console_bridge::viewer::Pacer;

#[test]
fn viewer_flushes_after_idle_gap() {
    let mut p = Pacer::new(200, 15);
    assert!(!p.poll(0));
    p.wrote(3, 1000);
    assert!(!p.poll(1100));
    assert!(!p.poll(1200));
    assert!(p.poll(1201));
    assert!(!p.poll(5000));
}

#[test]
fn viewer_flushes_over_line_cap() {
    let mut p = Pacer::new(200, 15);
    p.wrote(15, 0);
    assert!(!p.poll(1));
    p.wrote(1, 1);
    assert!(p.poll(2));
    p.wrote(usize::MAX, 3);
    p.wrote(5, 3);
    assert!(p.poll(3));
}
