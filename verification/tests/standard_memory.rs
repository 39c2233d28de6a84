use multiemu::access::AddressSpaceId;
use multiemu::machine::Machine;
use multiemu::snapshot::SnapshotValue;
use multiemu::standard_memory::{
    StandardMemory, StandardMemoryConfig, StandardMemoryInitialContents,
};

const ADDRESS_SPACE: AddressSpaceId = 0;

#[test]
fn initialization() {
    let mut machine = Machine::build()
        .insert_bus(ADDRESS_SPACE, 64)
        .build_standard_memory(
            StandardMemoryConfig {
                max_word_size: 8,
                readable: true,
                writable: true,
                assigned_range: 0..4,
                assigned_address_space: ADDRESS_SPACE,
                initial_contents: StandardMemoryInitialContents::Value { value: 0xff },
            },
            Vec::new(),
        )
        .0
        .build();
    let mut buffer = vec![0u8; 4];

    machine
        .memory_translation_table
        .read(0, &mut buffer, ADDRESS_SPACE)
        .unwrap();
    assert_eq!(buffer, [0xff; 4]);

    let mut machine = Machine::build()
        .insert_bus(ADDRESS_SPACE, 64)
        .build_standard_memory(
            StandardMemoryConfig {
                max_word_size: 8,
                readable: true,
                writable: true,
                assigned_range: 0..4,
                assigned_address_space: ADDRESS_SPACE,
                initial_contents: StandardMemoryInitialContents::Array {
                    value: vec![0xff; 4],
                    offset: 0,
                },
            },
            Vec::new(),
        )
        .0
        .build();
    let mut buffer = vec![0u8; 4];

    machine
        .memory_translation_table
        .read(0, &mut buffer, ADDRESS_SPACE)
        .unwrap();
    assert_eq!(buffer, [0xff; 4]);
}

fn word_machine() -> Machine {
    Machine::build()
        .insert_bus(ADDRESS_SPACE, 64)
        .build_standard_memory(
            StandardMemoryConfig {
                max_word_size: 8,
                readable: true,
                writable: true,
                assigned_range: 0..0x10000,
                assigned_address_space: ADDRESS_SPACE,
                initial_contents: StandardMemoryInitialContents::Value { value: 0xff },
            },
            Vec::new(),
        )
        .0
        .build()
}

#[test]
fn basic_read() {
    let mut machine = word_machine();
    let mut buffer = vec![0u8; 8];

    machine
        .memory_translation_table
        .read(0, &mut buffer, ADDRESS_SPACE)
        .unwrap();
    assert_eq!(buffer, [0xff; 8]);
}

#[test]
fn basic_write() {
    let mut machine = word_machine();
    let buffer = vec![0u8; 8];

    machine
        .memory_translation_table
        .write(0, &buffer, ADDRESS_SPACE)
        .unwrap();
}

#[test]
fn basic_read_write() {
    let mut machine = word_machine();
    let mut buffer = vec![0xffu8; 8];

    machine
        .memory_translation_table
        .write(0, &buffer, ADDRESS_SPACE)
        .unwrap();
    for b in buffer.iter_mut() {
        *b = 0;
    }
    machine
        .memory_translation_table
        .read(0, &mut buffer, ADDRESS_SPACE)
        .unwrap();
    assert_eq!(buffer, [0xff; 8]);
}

#[test]
fn extensive() {
    let mut machine = word_machine();
    let mut buffer = vec![0xffu8; 1];

    for i in 0..0x10000 {
        machine
            .memory_translation_table
            .write(i, &buffer, ADDRESS_SPACE)
            .unwrap();
        buffer[0] = 0x00;
        machine
            .memory_translation_table
            .read(i, &mut buffer, ADDRESS_SPACE)
            .unwrap();
        assert_eq!(buffer, [0xff; 1]);
    }
}

fn small_config(readable: bool, writable: bool) -> StandardMemoryConfig {
    StandardMemoryConfig {
        max_word_size: 8,
        readable,
        writable,
        assigned_range: 0..16,
        assigned_address_space: ADDRESS_SPACE,
        initial_contents: StandardMemoryInitialContents::Value { value: 0x5a },
    }
}

#[test]
fn snapshot_roundtrip_restores_contents() {
    let mut memory = StandardMemory::from_config(small_config(true, true), Vec::new());
    memory.write_internal(3, &vec![1, 2, 3, 4]);
    let snapshot = memory.save_snapshot();

    let mut other = StandardMemory::from_config(small_config(true, true), Vec::new());
    assert!(other.load_snapshot(snapshot));
    assert_eq!(other.save_snapshot(), memory.save_snapshot());
}

#[test]
fn snapshot_wrong_length_is_refused() {
    let mut memory = StandardMemory::from_config(small_config(true, true), Vec::new());
    let before = memory.save_snapshot();
    let bad = multiemu::snapshot::make_bin_map_snapshot(b"memory".to_vec(), vec![0u8; 3]);
    assert!(!memory.load_snapshot(bad));
    assert_eq!(memory.save_snapshot(), before);
}

#[test]
fn snapshot_wrong_shape_is_refused() {
    let mut memory = StandardMemory::from_config(small_config(true, true), Vec::new());
    assert!(!memory.load_snapshot(SnapshotValue::Integer(7)));
    assert!(!memory.load_snapshot(SnapshotValue::Binary(vec![0u8; 16])));
}

#[test]
fn reset_is_deterministic() {
    let mut a = StandardMemory::from_config(small_config(true, true), Vec::new());
    let mut b = StandardMemory::from_config(small_config(true, true), Vec::new());
    a.write_internal(0, &vec![9; 8]);
    a.reset();
    b.reset();
    assert_eq!(a.save_snapshot(), b.save_snapshot());
}

#[test]
fn reset_restores_rom_overlay() {
    let config = StandardMemoryConfig {
        max_word_size: 4,
        readable: true,
        writable: true,
        assigned_range: 8..24,
        assigned_address_space: ADDRESS_SPACE,
        initial_contents: StandardMemoryInitialContents::Rom {
            rom_id: multiemu::rom_memory::RomId(1),
            offset: 8,
        },
    };
    let mut memory = StandardMemory::from_config(config, vec![0xaa, 0xbb, 0xcc]);
    memory.write_internal(8, &vec![0, 0, 0, 0]);
    memory.reset();
    let snapshot = memory.save_snapshot();
    match snapshot {
        SnapshotValue::Mapping(entries) => match &entries[0].1 {
            SnapshotValue::Binary(bytes) => {
                assert_eq!(&bytes[..4], &[0xaa, 0xbb, 0xcc, 0x00]);
                assert_eq!(bytes.len(), 16);
            }
            other => panic!("snapshot payload has the wrong shape: {:?}", other),
        },
        other => panic!("snapshot has the wrong shape: {:?}", other),
    }
}

#[test]
fn random_contents_fill_the_whole_range() {
    let config = StandardMemoryConfig {
        max_word_size: 8,
        readable: true,
        writable: false,
        assigned_range: 0..5000,
        assigned_address_space: ADDRESS_SPACE,
        initial_contents: StandardMemoryInitialContents::Random,
    };
    let memory = StandardMemory::from_config(config, Vec::new());
    match memory.save_snapshot() {
        SnapshotValue::Mapping(entries) => match &entries[0].1 {
            SnapshotValue::Binary(bytes) => assert_eq!(bytes.len(), 5000),
            other => panic!("snapshot payload has the wrong shape: {:?}", other),
        },
        other => panic!("snapshot has the wrong shape: {:?}", other),
    }
}

#[test]
fn denied_write_leaves_readable_bytes_unchanged() {
    let mut machine = Machine::build()
        .insert_bus(ADDRESS_SPACE, 64)
        .build_standard_memory(small_config(true, false), Vec::new())
        .0
        .build();
    let result = machine
        .memory_translation_table
        .write(0, &vec![0u8; 8], ADDRESS_SPACE);
    assert!(result.is_err());
    let mut buffer = vec![0u8; 8];
    machine
        .memory_translation_table
        .read(0, &mut buffer, ADDRESS_SPACE)
        .unwrap();
    assert_eq!(buffer, [0x5a; 8]);
}
