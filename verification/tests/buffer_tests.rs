use binocular::buffer::{FileBuffer, MemoryBuffer, MmapBuffer};
use binocular::error::BufferError;
use memmap2::MmapOptions;

/// A read-only memory map holding `contents`.
fn mapped(contents: &[u8]) -> MmapBuffer {
    let mut map = MmapOptions::new().len(contents.len().max(1)).map_anon().expect("anonymous map");
    map[..contents.len()].copy_from_slice(contents);
    let map = map.make_read_only().expect("read-only map");
    MmapBuffer::from_mmap(map)
}

#[test]
fn mmap_buffer_open_and_read_bytes_from_temp_file() {
    let bytes = [0x10, 0x20, 0x30, 0x40, 0x50];
    let mmap = mapped(&bytes);

    assert_eq!(mmap.read_bytes(1, 3).expect("valid range should read"), &bytes[1..4]);
    assert_eq!(mmap.read_bytes(0, 0).expect("zero-length read should work"), &[] as &[u8]);
}

#[test]
fn mmap_buffer_reports_correct_file_size() {
    let bytes = [1_u8, 2, 3, 4, 5, 6, 7];
    let mmap = mapped(&bytes);

    assert_eq!(mmap.file_size(), bytes.len() as u64);
}

#[test]
fn mmap_oob_errors_match_memory_buffer() {
    let data = vec![0xAA, 0xBB, 0xCC];
    let mmap = mapped(&data);
    let memory = MemoryBuffer::from_vec(data);

    let cases = [
        (3_u64, 1_usize),
        (2_u64, 2_usize),
        (u64::MAX, 1_usize),
        (1_u64, usize::MAX),
        (u64::MAX, usize::MAX),
    ];

    for (offset, len) in cases {
        assert!(
            matches!(memory.read_bytes(offset, len), Err(BufferError::OutOfBounds)),
            "memory buffer should return OutOfBounds for offset={offset}, len={len}"
        );
        assert!(
            matches!(mmap.read_bytes(offset, len), Err(BufferError::OutOfBounds)),
            "mmap buffer should return OutOfBounds for offset={offset}, len={len}"
        );
    }
}

#[test]
fn small_files_are_read_and_large_ones_mapped() {
    assert!(binocular::buffer::reads_into_memory(0));
    assert!(binocular::buffer::reads_into_memory(8 * 1024 * 1024 - 1));
    assert!(!binocular::buffer::reads_into_memory(8 * 1024 * 1024));
}
