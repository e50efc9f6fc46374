use game_of_life::buffer::DoubleBuffer;

#[test]
fn a_new_buffer_holds_the_data_on_both_sides() {
    let mut buffer = DoubleBuffer::new(7u32);
    assert_eq!(*buffer.borrow_read(), 7);
    let (current, next) = buffer.borrow_read_write();
    assert_eq!(*current, 7);
    assert_eq!(*next, 7);
}

#[test]
fn writing_the_next_buffer_leaves_the_current_one() {
    let mut buffer = DoubleBuffer::new(1u32);
    let (current, next) = buffer.borrow_read_write();
    *next = *current + 1;
    assert_eq!(*buffer.borrow_read(), 1);
}

#[test]
fn swapping_makes_the_next_buffer_current() {
    let mut buffer = DoubleBuffer::new(1u32);
    let (current, next) = buffer.borrow_read_write();
    *next = *current + 1;
    buffer.swap_buffers();
    assert_eq!(*buffer.borrow_read(), 2);
    let (current, next) = buffer.borrow_read_write();
    assert_eq!(*current, 2);
    assert_eq!(*next, 1);
}

#[test]
fn swapping_twice_leads_back() {
    let mut buffer = DoubleBuffer::new([0u8; 4]);
    buffer.borrow_current_mut()[2] = 9;
    buffer.swap_buffers();
    assert_eq!(*buffer.borrow_read(), [0, 0, 0, 0]);
    buffer.swap_buffers();
    assert_eq!(*buffer.borrow_read(), [0, 0, 9, 0]);
}

#[test]
fn writing_the_current_buffer_leaves_the_next_one() {
    let mut buffer = DoubleBuffer::new(3u32);
    *buffer.borrow_current_mut() = 4;
    assert_eq!(*buffer.borrow_read(), 4);
    let (current, next) = buffer.borrow_read_write();
    assert_eq!(*current, 4);
    assert_eq!(*next, 3);
}

#[test]
fn each_generation_is_written_from_the_one_before() {
    let mut buffer = DoubleBuffer::new(1u64);
    for _ in 0..10 {
        let (current, next) = buffer.borrow_read_write();
        *next = *current * 2;
        buffer.swap_buffers();
    }
    assert_eq!(*buffer.borrow_read(), 1024);
}
