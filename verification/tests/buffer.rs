use tcp_proxy::buffer::{ProxyBuffer, BUFFER_SIZE};

fn receive(buffer: &mut ProxyBuffer, data: &[u8]) {
    let room = buffer.get_available();
    assert!(data.len() <= room.len());
    room[..data.len()].copy_from_slice(data);
    buffer.advance_data_len(data.len());
}

#[test]
fn capacity_is_four_kibibytes() {
    assert_eq!(BUFFER_SIZE, 4096);
}

#[test]
fn new_buffer_is_empty_and_not_full() {
    let mut buffer = ProxyBuffer::new();
    assert!(buffer.is_empty());
    assert!(!buffer.is_full());
    assert_eq!(buffer.get_unsent().len(), 0);
    assert_eq!(buffer.get_available().len(), 4096);
}

#[test]
fn new_buffer_storage_is_zeroed() {
    let mut buffer = ProxyBuffer::new();
    assert!(buffer.get_available().iter().all(|b| *b == 0));
}

#[test]
fn received_bytes_are_unsent_in_order() {
    let mut buffer = ProxyBuffer::new();
    receive(&mut buffer, &[0x41, 0x42, 0x43]);
    assert!(!buffer.is_empty());
    assert_eq!(buffer.get_unsent().to_vec(), vec![0x41, 0x42, 0x43]);
    assert_eq!(buffer.get_available().len(), 4093);
}

#[test]
fn partial_advance_keeps_the_rest() {
    let mut buffer = ProxyBuffer::new();
    receive(&mut buffer, &[1, 2, 3, 4, 5]);
    buffer.advance_offset(2);
    assert_eq!(buffer.get_unsent().to_vec(), vec![3, 4, 5]);
    assert!(!buffer.is_empty());
    assert_eq!(buffer.get_available().len(), 4091);
}

#[test]
fn advance_of_nothing_changes_nothing() {
    let mut buffer = ProxyBuffer::new();
    receive(&mut buffer, &[9, 8]);
    buffer.advance_offset(0);
    assert_eq!(buffer.get_unsent().to_vec(), vec![9, 8]);
    buffer.advance_data_len(0);
    assert_eq!(buffer.get_unsent().to_vec(), vec![9, 8]);
}

#[test]
fn full_drain_resets_both_cursors() {
    let mut buffer = ProxyBuffer::new();
    receive(&mut buffer, &[1, 2, 3]);
    buffer.advance_offset(1);
    buffer.advance_offset(2);
    assert!(buffer.is_empty());
    assert_eq!(buffer.get_unsent().len(), 0);
    assert_eq!(buffer.get_available().len(), 4096);
}

#[test]
fn drained_buffer_is_reused_from_the_start() {
    let mut buffer = ProxyBuffer::new();
    receive(&mut buffer, &[1, 2, 3]);
    buffer.advance_offset(3);
    receive(&mut buffer, &[7, 7]);
    assert_eq!(buffer.get_unsent().to_vec(), vec![7, 7]);
    assert_eq!(buffer.get_available().len(), 4094);
}

#[test]
fn buffer_is_full_at_capacity() {
    let mut buffer = ProxyBuffer::new();
    let data = vec![0xAB_u8; 4096];
    receive(&mut buffer, &data);
    assert!(buffer.is_full());
    assert_eq!(buffer.get_available().len(), 0);
    assert_eq!(buffer.get_unsent().to_vec(), data);
}

#[test]
fn buffer_one_short_of_capacity_is_not_full() {
    let mut buffer = ProxyBuffer::new();
    receive(&mut buffer, &vec![1_u8; 4095]);
    assert!(!buffer.is_full());
    assert_eq!(buffer.get_available().len(), 1);
}

#[test]
fn full_buffer_partly_sent_stays_full() {
    let mut buffer = ProxyBuffer::new();
    receive(&mut buffer, &vec![5_u8; 4096]);
    buffer.advance_offset(100);
    assert!(buffer.is_full());
    assert_eq!(buffer.get_unsent().len(), 3996);
    assert_eq!(buffer.get_available().len(), 0);
    buffer.advance_offset(3996);
    assert!(buffer.is_empty());
    assert!(!buffer.is_full());
    assert_eq!(buffer.get_available().len(), 4096);
}

#[test]
fn clear_forgets_everything() {
    let mut buffer = ProxyBuffer::new();
    receive(&mut buffer, &[1, 2, 3, 4]);
    buffer.advance_offset(1);
    buffer.clear();
    assert!(buffer.is_empty());
    assert_eq!(buffer.get_unsent().len(), 0);
    assert_eq!(buffer.get_available().len(), 4096);
}

#[test]
fn clear_keeps_the_storage() {
    let mut buffer = ProxyBuffer::new();
    receive(&mut buffer, &[1, 2, 3, 4]);
    buffer.clear();
    assert_eq!(buffer.get_available()[..4].to_vec(), vec![1, 2, 3, 4]);
}

#[test]
fn interleaved_receives_and_advances_round_trip() {
    let mut buffer = ProxyBuffer::new();
    let mut expected: Vec<u8> = Vec::new();
    let mut next: u8 = 0;
    let steps: [(usize, usize); 6] = [(10, 3), (0, 4), (25, 0), (7, 30), (100, 5), (0, 100)];
    for (take_in, send_out) in steps {
        let chunk: Vec<u8> = (0..take_in)
            .map(|_| {
                next = next.wrapping_add(1);
                next
            })
            .collect();
        receive(&mut buffer, &chunk);
        expected.extend_from_slice(&chunk);
        assert_eq!(buffer.get_unsent().to_vec(), expected);
        buffer.advance_offset(send_out);
        expected.drain(..send_out);
        assert_eq!(buffer.get_unsent().to_vec(), expected);
        assert_eq!(buffer.is_empty(), expected.is_empty());
    }
    assert!(expected.is_empty());
    assert!(buffer.is_empty());
    assert_eq!(buffer.get_available().len(), 4096);
}

#[test]
fn unsent_slice_can_be_read_repeatedly() {
    let mut buffer = ProxyBuffer::new();
    receive(&mut buffer, &[4, 5, 6]);
    assert_eq!(buffer.get_unsent().to_vec(), vec![4, 5, 6]);
    assert_eq!(buffer.get_unsent().to_vec(), vec![4, 5, 6]);
}
