use bankres::memlib::load_memlist;
use bankres::memlib::MemEntryState;
use bankres::resources::load_resources;

fn sample_record() -> Vec<u8> {
    vec![
        0x02, 0x07, // state, type
        0x01, 0x02, // buf_ptr
        0x03, 0x04, // unused
        0x05, 0x09, // rank, bank id
        0x00, 0x00, 0x10, 0x20, // bank offset
        0x0A, 0x0B, // unused
        0x00, 0x30, // packed size
        0x0C, 0x0D, // unused
        0x00, 0x40, // unpacked size
    ]
}

#[test]
fn load_memlist_parses_big_endian_fields() {
    let entries = load_memlist(&sample_record());
    assert_eq!(entries.len(), 1);
    let e = &entries[0];
    assert_eq!(e.state, 2);
    assert_eq!(e.type_, 7);
    assert_eq!(e.buf_ptr, 0x0102);
    assert_eq!(e.unused_4, 0x0304);
    assert_eq!(e.rank_num, 5);
    assert_eq!(e.bank_id, 9);
    assert_eq!(e.bank_offset, 0x1020);
    assert_eq!(e.unused_c, 0x0A0B);
    assert_eq!(e.packed_size, 0x30);
    assert_eq!(e.unused_10, 0x0C0D);
    assert_eq!(e.size, 0x40);
}

#[test]
fn load_memlist_stops_at_end_marker() {
    let mut data = sample_record();
    data.extend(vec![0xFFu8; 20]); // end-of-catalog record
    data.extend(sample_record()); // never reached
    let entries = load_memlist(&data);
    assert_eq!(entries.len(), 1);
}

#[test]
fn load_memlist_stops_at_short_tail() {
    let mut data = sample_record();
    data.extend(vec![0u8; 19]); // fewer than 20 bytes: no record
    let entries = load_memlist(&data);
    assert_eq!(entries.len(), 1);
}

#[test]
fn load_memlist_of_empty_input_is_empty() {
    let entries = load_memlist(&Vec::new());
    assert_eq!(entries.len(), 0);
}

#[test]
fn mem_entry_state_codes_match_the_file_format() {
    assert_eq!(MemEntryState::NotNeeded.code(), 0);
    assert_eq!(MemEntryState::Loaded.code(), 1);
    assert_eq!(MemEntryState::LoadMe.code(), 2);
    assert_eq!(MemEntryState::EndOfMemlist.code(), 255);
}

#[test]
fn load_resources_carries_the_catalog() {
    let mut data = sample_record();
    data.extend(sample_record());
    let r = load_resources(&data);
    assert_eq!(r.entries.len(), 2);
    assert_eq!(r.entries[0].bank_id, 9);
    assert_eq!(r.entries[1].size, 0x40);
}
