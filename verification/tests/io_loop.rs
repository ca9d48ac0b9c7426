use vmm_devices::io_loop::{EventSource, IoLoop, IoLoopError};

#[test]
fn new_loop_has_no_sources() {
    let l = IoLoop::new();
    assert!(l.sources().is_empty());
}

#[test]
fn add_registers_source() {
    let mut l = IoLoop::new();
    l.add(EventSource { fd: 5, token: 100 });
    l.add(EventSource { fd: 6, token: 200 });
    assert_eq!(l.sources().len(), 2);
    assert_eq!(l.sources()[0].fd, 5);
    assert_eq!(l.sources()[1].token, 200);
}

#[test]
fn default_is_empty() {
    let l = IoLoop::default();
    assert!(l.sources().is_empty());
}

#[test]
fn event_source_is_copy() {
    let s = EventSource { fd: 7, token: 42 };
    let s2 = s;
    assert_eq!(s.fd, s2.fd);
    assert_eq!(s.token, s2.token);
}

#[test]
fn errors_say_why() {
    let e = IoLoopError::Epoll("no descriptors left".to_string());
    assert_eq!(e.clone(), e);
    assert_ne!(e, IoLoopError::Io("no descriptors left".to_string()));
}
