use termproxy::buffer::ByteQueue;
use termproxy::codec::{process_queue, Message, QueueStep};

fn queue_from(bytes: &[u8]) -> ByteQueue {
    let mut q = ByteQueue::new(1024);
    q.append_slice(bytes);
    q
}

#[test]
fn data_message_leaves_payload_in_place() {
    let mut q = queue_from(b"0:5:hello");
    assert_eq!(process_queue(&mut q), QueueStep::Parsed(Message::Data(5)));
    assert_eq!(q.contents(), b"hello");
}

#[test]
fn resize_message_is_self_contained() {
    let mut q = queue_from(b"1X20:40:");
    assert_eq!(
        process_queue(&mut q),
        QueueStep::Parsed(Message::Resize(20, 40))
    );
    assert!(q.is_empty());
}

#[test]
fn unknown_tags_are_skipped_one_byte_at_a_time() {
    let mut q = queue_from(b"zZ0:2:hi");
    assert_eq!(process_queue(&mut q), QueueStep::Parsed(Message::Data(2)));
    assert_eq!(q.contents(), b"hi");
}

#[test]
fn incomplete_message_consumes_nothing() {
    let mut q = queue_from(b"0:12");
    assert_eq!(process_queue(&mut q), QueueStep::Pending);
    assert_eq!(q.contents(), b"0:12");
    let mut q2 = queue_from(b"1");
    assert_eq!(process_queue(&mut q2), QueueStep::Pending);
    assert_eq!(q2.contents(), b"1");
}

#[test]
fn malformed_number_halts_the_pass_but_consumes_the_field() {
    let mut q = queue_from(b"0:1x:rest");
    assert_eq!(process_queue(&mut q), QueueStep::Halted);
    assert_eq!(q.contents(), b"rest");
}

#[test]
fn number_overflow_is_malformed() {
    let mut q = queue_from(b"0:18446744073709551616:x");
    assert_eq!(process_queue(&mut q), QueueStep::Halted);
    assert_eq!(q.contents(), b"x");
}

#[test]
fn unterminated_field_is_cut_short() {
    // 21 bytes after the header with no terminator: 20 are discarded and
    // scanning resumes, so the buffer strictly shrinks instead of stalling
    let mut q = queue_from(b"0:aaaaaaaaaaaaaaaaaaaaa");
    assert_eq!(q.len(), 23);
    assert_eq!(process_queue(&mut q), QueueStep::Pending);
    assert_eq!(q.contents(), b"a");
}

#[test]
fn chunk_boundaries_do_not_matter() {
    // split: the first fragment decides nothing, the rest completes it
    let mut split = queue_from(b"1X2");
    assert_eq!(process_queue(&mut split), QueueStep::Pending);
    assert_eq!(split.contents(), b"1X2");
    split.append_slice(b"0:40:");
    let step_split = process_queue(&mut split);
    // whole: the same bytes in one piece
    let mut whole = queue_from(b"1X20:40:");
    let step_whole = process_queue(&mut whole);
    assert_eq!(step_split, step_whole);
    assert_eq!(step_whole, QueueStep::Parsed(Message::Resize(20, 40)));
    assert_eq!(split.contents(), whole.contents());
}

#[test]
fn payload_is_never_reparsed() {
    // the 6 payload bytes look like a RESIZE message but are opaque
    let mut q = queue_from(b"0:6:1X2:3:0:2:ok");
    assert_eq!(process_queue(&mut q), QueueStep::Parsed(Message::Data(6)));
    let payload = q.remove_data(6);
    assert_eq!(&payload[..], b"1X2:3:");
    assert_eq!(process_queue(&mut q), QueueStep::Parsed(Message::Data(2)));
    assert_eq!(q.contents(), b"ok");
}

#[test]
fn resize_takes_effect_between_surrounding_data() {
    let mut q = queue_from(b"0:2:ab1X3:4:0:2:cd");
    assert_eq!(process_queue(&mut q), QueueStep::Parsed(Message::Data(2)));
    let first = q.remove_data(2);
    assert_eq!(&first[..], b"ab");
    assert_eq!(
        process_queue(&mut q),
        QueueStep::Parsed(Message::Resize(3, 4))
    );
    assert_eq!(process_queue(&mut q), QueueStep::Parsed(Message::Data(2)));
    assert_eq!(q.contents(), b"cd");
}

#[test]
fn empty_queue_is_pending() {
    let mut q = queue_from(b"");
    assert_eq!(process_queue(&mut q), QueueStep::Pending);
}

#[test]
fn zero_length_data_is_a_complete_message() {
    let mut q = queue_from(b"0:0:x");
    assert_eq!(process_queue(&mut q), QueueStep::Parsed(Message::Data(0)));
    assert_eq!(q.contents(), b"x");
}

#[test]
fn oversized_geometry_wraps_to_sixteen_bits() {
    let mut q = queue_from(b"1X65536:3:");
    assert_eq!(
        process_queue(&mut q),
        QueueStep::Parsed(Message::Resize(0, 3))
    );
    assert!(q.is_empty());
}
