use rust_gallery::sink::MIN_BUF_SIZE;
use rust_gallery::{load_file, NginxBuffer};

fn contents(buffer: &NginxBuffer) -> Vec<u8> {
    buffer.chain().iter().flat_map(|s| s.as_slice().to_vec()).collect()
}

#[test]
fn new_sink_has_no_buffer() {
    let buffer = NginxBuffer::new();
    assert!(buffer.chain().is_empty());
    assert_eq!(MIN_BUF_SIZE, 65_536);
}

#[test]
fn first_write_adds_a_buffer_of_the_least_size() {
    let mut buffer = NginxBuffer::new();
    assert_eq!(buffer.write(b"hello"), 5);
    assert_eq!(buffer.chain().len(), 1);
    assert_eq!(buffer.chain()[0].size(), 65_536);
    assert_eq!(buffer.chain()[0].as_slice(), b"hello");
}

#[test]
fn writes_that_fit_go_into_the_last_buffer() {
    let mut buffer = NginxBuffer::new();
    buffer.write(b"hello");
    buffer.write(b", ");
    buffer.write(b"world");
    buffer.flush();
    assert_eq!(buffer.chain().len(), 1);
    assert_eq!(buffer.chain()[0].as_slice(), b"hello, world");
}

#[test]
fn write_that_does_not_fit_goes_whole_into_a_new_buffer() {
    let mut buffer = NginxBuffer::new();
    buffer.write(&[1u8; 10]);
    buffer.write(&vec![2u8; 65_526]);
    assert_eq!(buffer.chain().len(), 1);
    assert_eq!(buffer.chain()[0].as_slice().len(), 65_536);
    buffer.write(&[3u8; 1]);
    assert_eq!(buffer.chain().len(), 2);
    assert_eq!(buffer.chain()[1].as_slice(), &[3u8]);
    let mut other = NginxBuffer::new();
    other.write(&[1u8; 10]);
    other.write(&vec![2u8; 65_527]);
    assert_eq!(other.chain().len(), 2);
    assert_eq!(other.chain()[0].as_slice().len(), 10);
    assert_eq!(other.chain()[1].as_slice().len(), 65_527);
    assert_eq!(other.chain()[1].size(), 65_536);
}

#[test]
fn long_write_gets_a_buffer_of_its_own_length() {
    let mut buffer = NginxBuffer::new();
    let long: Vec<u8> = (0..100_000u32).map(|i| (i % 251) as u8).collect();
    assert_eq!(buffer.write(&long), 100_000);
    assert_eq!(buffer.chain().len(), 1);
    assert_eq!(buffer.chain()[0].size(), 100_000);
    buffer.write(b"x");
    assert_eq!(buffer.chain().len(), 2);
    assert_eq!(buffer.chain()[1].size(), 65_536);
    let mut all = long.clone();
    all.push(b'x');
    assert_eq!(contents(&buffer), all);
}

#[test]
fn empty_write_still_opens_a_buffer() {
    let mut buffer = NginxBuffer::new();
    assert_eq!(buffer.write(b""), 0);
    assert_eq!(buffer.chain().len(), 1);
    assert_eq!(buffer.write(b""), 0);
    assert_eq!(buffer.chain().len(), 1);
    assert!(contents(&buffer).is_empty());
}

#[test]
fn bytes_come_out_in_the_order_written() {
    let mut buffer = NginxBuffer::new();
    let mut expected = Vec::new();
    for i in 0..50u32 {
        let chunk = vec![i as u8; 5_000];
        buffer.write(&chunk);
        expected.extend_from_slice(&chunk);
    }
    assert_eq!(contents(&buffer), expected);
    for segment in buffer.chain() {
        assert!(segment.as_slice().len() <= segment.size());
    }
}

#[test]
fn file_is_written_where_it_was_read() {
    let mut buffer = NginxBuffer::new();
    assert!(load_file(Some(b"<html>"), &mut buffer));
    assert!(!load_file(None, &mut buffer));
    assert_eq!(contents(&buffer), b"<html>");
}
