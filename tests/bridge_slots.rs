use chunk_bridge::bridge::{
    get_byte_for_chunk, get_chunks_byte, get_chunks_count, get_chunks_size, get_datamap_byte,
    get_datamap_size, get_exit_code, get_input_byte, get_safeurl_byte, get_xorname_byte,
    set_chunks_byte, set_chunks_count, set_chunks_size, set_datamap_byte, set_datamap_size,
    set_exit_code, set_input_byte, set_safeurl_byte, set_xorname_byte, try_byte_for_chunk, Bridge, DATAMAP_CAPACITY,
    IO_SIZE, MAX_CHUNKS, NAME_SIZE, URL_SIZE,
};

#[test]
fn capacities_are_published() {
    assert_eq!(MAX_CHUNKS, 50);
    assert_eq!(IO_SIZE, (1024 * 1024 + 16) * 50);
    assert_eq!(NAME_SIZE, 32);
    assert_eq!(DATAMAP_CAPACITY, 32 * 50);
    assert_eq!(URL_SIZE, 66);
}

#[test]
fn new_bridge_is_zeroed() {
    let b = Bridge::new();
    assert_eq!(get_exit_code(&b), 0);
    assert_eq!(get_chunks_count(&b), 0);
    assert_eq!(get_datamap_size(&b), 0);
    assert_eq!(get_input_byte(&b, IO_SIZE - 1), 0);
    assert_eq!(get_chunks_size(&b, MAX_CHUNKS - 1), 0);
}

#[test]
fn byte_slots_read_back_what_was_written() {
    let mut b = Bridge::new();
    set_input_byte(&mut b, 0, 7);
    set_input_byte(&mut b, IO_SIZE - 1, 9);
    set_chunks_byte(&mut b, 5, 11);
    set_datamap_byte(&mut b, DATAMAP_CAPACITY - 1, 13);
    set_xorname_byte(&mut b, 31, 15);
    set_safeurl_byte(&mut b, 65, 17);
    assert_eq!(get_input_byte(&b, 0), 7);
    assert_eq!(get_input_byte(&b, IO_SIZE - 1), 9);
    assert_eq!(get_input_byte(&b, 1), 0);
    assert_eq!(get_chunks_byte(&b, 5), 11);
    assert_eq!(get_datamap_byte(&b, DATAMAP_CAPACITY - 1), 13);
    assert_eq!(get_xorname_byte(&b, 31), 15);
    assert_eq!(get_safeurl_byte(&b, 65), 17);
}

#[test]
fn scalar_slots_read_back_what_was_written() {
    let mut b = Bridge::new();
    set_exit_code(&mut b, 3);
    set_chunks_count(&mut b, 4);
    set_chunks_size(&mut b, 2, 1000);
    set_datamap_size(&mut b, 96);
    assert_eq!(get_exit_code(&b), 3);
    assert_eq!(get_chunks_count(&b), 4);
    assert_eq!(get_chunks_size(&b, 2), 1000);
    assert_eq!(get_chunks_size(&b, 1), 0);
    assert_eq!(get_datamap_size(&b), 96);
}

#[test]
fn byte_for_chunk_skips_the_sizes_of_earlier_chunks() {
    let mut b = Bridge::new();
    // chunk 0: [1, 2], chunk 1: [3, 4, 5], chunk 2: [6]
    let bytes = [1u8, 2, 3, 4, 5, 6];
    for (i, v) in bytes.iter().enumerate() {
        set_chunks_byte(&mut b, i, *v);
    }
    set_chunks_size(&mut b, 0, 2);
    set_chunks_size(&mut b, 1, 3);
    set_chunks_size(&mut b, 2, 1);
    set_chunks_count(&mut b, 3);
    assert_eq!(get_byte_for_chunk(&b, 0, 0), 1);
    assert_eq!(get_byte_for_chunk(&b, 0, 1), 2);
    assert_eq!(get_byte_for_chunk(&b, 1, 0), 3);
    assert_eq!(get_byte_for_chunk(&b, 1, 2), 5);
    assert_eq!(get_byte_for_chunk(&b, 2, 0), 6);
}

#[test]
fn try_byte_for_chunk_checks_the_range() {
    let mut b = Bridge::new();
    set_chunks_byte(&mut b, 4, 42);
    set_chunks_size(&mut b, 0, 4);
    assert_eq!(try_byte_for_chunk(&b, 1, 0), Some(42));
    assert_eq!(try_byte_for_chunk(&b, 1, 0), Some(get_byte_for_chunk(&b, 1, 0)));
    assert_eq!(try_byte_for_chunk(&b, 0, IO_SIZE - 1), Some(0));
    assert_eq!(try_byte_for_chunk(&b, 1, IO_SIZE - 4), None);
    assert_eq!(try_byte_for_chunk(&b, MAX_CHUNKS + 1, 0), None);
    assert_eq!(try_byte_for_chunk(&b, MAX_CHUNKS, 0), Some(42));
    set_chunks_size(&mut b, 1, usize::MAX);
    assert_eq!(try_byte_for_chunk(&b, 2, 0), None);
}
