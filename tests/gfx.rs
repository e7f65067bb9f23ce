use softraster::gfx_api::{
    blank, Buffer, CommandQueue, Destroy, Device, DummyCommandQueue, DummyDevice, Pipeline, Shader,
};

#[test]
fn blank_means_whitespace_only() {
    assert!(blank(""));
    assert!(blank(" \t\n"));
    assert!(blank("\u{3000}\u{a0}"));
    assert!(!blank(" a "));
    assert!(!blank("x"));
}

#[test]
fn buffer_write_copies_into_front() {
    let dev = DummyDevice;
    let mut b = dev.create_buffer(4).unwrap();
    assert_eq!(b.size(), 4);
    assert!(b.write(&[1, 2]).is_ok());
    assert!(b.write(&[1, 2, 3, 4]).is_ok());
    assert_eq!(b.size(), 4);
}

#[test]
fn buffer_write_overflow_fails() {
    let dev = DummyDevice;
    let mut b = dev.create_buffer(2).unwrap();
    let e = b.write(&[1, 2, 3]).unwrap_err();
    assert_eq!(e.message, "Buffer overflow");
    assert_eq!(b.size(), 2);
}

#[test]
fn buffer_destroy_releases_storage() {
    let dev = DummyDevice;
    let mut b = dev.create_buffer(3).unwrap();
    b.destroy();
    assert_eq!(b.size(), 0);
}

#[test]
fn shader_source_round_trip() {
    let dev = DummyDevice;
    let mut s = dev.create_shader("fn main() {}").unwrap();
    assert_eq!(s.get_source(), "fn main() {}");
    assert!(s.set_source("void main() {}").is_ok());
    assert_eq!(s.get_source(), "void main() {}");
}

#[test]
fn shader_blank_source_fails_and_keeps_old() {
    let dev = DummyDevice;
    let mut s = dev.create_shader("a").unwrap();
    let e = s.set_source("   \t").unwrap_err();
    assert_eq!(e.message, "Shader source is empty");
    assert!(s.set_source("").is_err());
    assert_eq!(s.get_source(), "a");
}

#[test]
fn pipeline_reports_bound_after_bind() {
    let dev = DummyDevice;
    let s = dev.create_shader("a").unwrap();
    let mut p = dev.create_pipeline(&s).unwrap();
    assert!(!p.is_bound());
    assert!(p.bind().is_ok());
    assert!(p.is_bound());
}

#[test]
fn command_queue_appends_in_order() {
    let mut q = DummyCommandQueue::new();
    assert!(q.commands().is_empty());
    assert!(q.add_command("clear").is_ok());
    assert!(q.add_command("draw").is_ok());
    assert_eq!(q.commands(), &["clear".to_string(), "draw".to_string()]);
    let dev = DummyDevice;
    assert!(dev.submit(&q).is_ok());
}

#[test]
fn command_queue_rejects_blank_command() {
    let mut q = DummyCommandQueue::new();
    let e = q.add_command(" ").unwrap_err();
    assert_eq!(e.message, "Command is empty");
    assert!(q.commands().is_empty());
}

#[test]
fn command_queue_clear_empties_it() {
    let mut q = DummyCommandQueue::new();
    q.add_command("a").unwrap();
    q.clear();
    assert!(q.commands().is_empty());
}
