use multiemu::access::{
    AddressSpaceId, ReadMemoryOperationErrorFailureType, WriteMemoryOperationErrorFailureType,
};
use multiemu::machine::Machine;
use multiemu::mirror_memory::MirrorMemoryConfig;
use multiemu::standard_memory::{StandardMemoryConfig, StandardMemoryInitialContents};

const ADDRESS_SPACE: AddressSpaceId = 0;

fn memory_config(range: std::ops::Range<usize>, value: u8) -> StandardMemoryConfig {
    StandardMemoryConfig {
        max_word_size: 8,
        readable: true,
        writable: true,
        assigned_range: range,
        assigned_address_space: ADDRESS_SPACE,
        initial_contents: StandardMemoryInitialContents::Value { value },
    }
}

#[test]
fn out_of_range_read_reports_the_denied_tail() {
    let mut machine = Machine::build()
        .insert_bus(ADDRESS_SPACE, 64)
        .build_standard_memory(memory_config(0..16, 0xff), Vec::new())
        .0
        .build();
    let mut buffer = vec![0u8; 8];
    let err = machine
        .memory_translation_table
        .read(14, &mut buffer, ADDRESS_SPACE)
        .unwrap_err();
    assert_eq!(err.0.num_entries(), 1);
    assert_eq!(
        err.0.entry_at(0),
        (16, 22, ReadMemoryOperationErrorFailureType::Denied)
    );
    assert_eq!(
        err.0.lookup(18),
        Some(ReadMemoryOperationErrorFailureType::Denied)
    );
    assert_eq!(err.0.lookup(15), None);
}

#[test]
fn bus_width_masks_the_address() {
    // A 13-bit bus truncates addresses: reading any address equals reading
    // that address modulo 8192.
    let mut machine = Machine::build()
        .insert_bus(ADDRESS_SPACE, 13)
        .build_standard_memory(memory_config(0..8192, 0), Vec::new())
        .0
        .build();
    machine
        .memory_translation_table
        .write(5, &vec![0xabu8], ADDRESS_SPACE)
        .unwrap();
    let mut direct = vec![0u8; 1];
    machine
        .memory_translation_table
        .read(5, &mut direct, ADDRESS_SPACE)
        .unwrap();
    let mut mirrored = vec![0u8; 1];
    machine
        .memory_translation_table
        .read(5 + 3 * 8192, &mut mirrored, ADDRESS_SPACE)
        .unwrap();
    assert_eq!(direct, [0xab]);
    assert_eq!(mirrored, [0xab]);
}

#[test]
fn mirror_redirects_to_the_target_region() {
    let mut machine = Machine::build()
        .insert_bus(ADDRESS_SPACE, 64)
        .build_standard_memory(memory_config(16..32, 0x11), Vec::new())
        .0
        .build_mirror_memory(MirrorMemoryConfig {
            assigned_range: 0..16,
            target_base: 16,
            assigned_address_space: ADDRESS_SPACE,
        })
        .0
        .build();
    // write through the mirror, read back directly
    machine
        .memory_translation_table
        .write(2, &vec![0x77u8, 0x78u8], ADDRESS_SPACE)
        .unwrap();
    let mut buffer = vec![0u8; 2];
    machine
        .memory_translation_table
        .read(18, &mut buffer, ADDRESS_SPACE)
        .unwrap();
    assert_eq!(buffer, [0x77, 0x78]);
    // and read through the mirror what was written directly
    machine
        .memory_translation_table
        .write(20, &vec![0x99u8], ADDRESS_SPACE)
        .unwrap();
    let mut through = vec![0u8; 1];
    machine
        .memory_translation_table
        .read(4, &mut through, ADDRESS_SPACE)
        .unwrap();
    assert_eq!(through, [0x99]);
}

fn chained_mirrors(mirrors: usize) -> Machine {
    // mirror k covers [k*16, k*16+16) and redirects to the next block; the
    // final block is backed by real memory initialized to 0x42.
    let mut builder = Machine::build().insert_bus(ADDRESS_SPACE, 64);
    for k in 0..mirrors {
        builder = builder
            .build_mirror_memory(MirrorMemoryConfig {
                assigned_range: (k * 16)..(k * 16 + 16),
                target_base: (k + 1) * 16,
                assigned_address_space: ADDRESS_SPACE,
            })
            .0;
    }
    builder
        .build_standard_memory(
            memory_config((mirrors * 16)..(mirrors * 16 + 16), 0x42),
            Vec::new(),
        )
        .0
        .build()
}

#[test]
fn redirect_chain_within_budget_resolves() {
    // eight hops are exactly the budget
    let mut machine = chained_mirrors(8);
    let mut buffer = vec![0u8; 4];
    machine
        .memory_translation_table
        .read(0, &mut buffer, ADDRESS_SPACE)
        .unwrap();
    assert_eq!(buffer, [0x42; 4]);
}

#[test]
fn redirect_chain_past_budget_is_an_error() {
    // nine hops exceed the eight-hop budget: the access must fail rather
    // than loop
    let mut machine = chained_mirrors(9);
    let mut buffer = vec![0u8; 4];
    let err = machine
        .memory_translation_table
        .read(0, &mut buffer, ADDRESS_SPACE)
        .unwrap_err();
    assert_eq!(err.0.num_entries(), 1);
    assert_eq!(
        err.0.entry_at(0).2,
        ReadMemoryOperationErrorFailureType::OutOfBus
    );
    let mut data = vec![0u8; 4];
    let werr = machine
        .memory_translation_table
        .write(0, &mut data, ADDRESS_SPACE)
        .unwrap_err();
    assert_eq!(
        werr.0.entry_at(0).2,
        WriteMemoryOperationErrorFailureType::OutOfBus
    );
}

#[test]
fn preview_reads_without_side_effects() {
    let mut machine = Machine::build()
        .insert_bus(ADDRESS_SPACE, 64)
        .build_standard_memory(memory_config(0..64, 0x2c), Vec::new())
        .0
        .build();
    let mut buffer = vec![0u8; 4];
    machine
        .memory_translation_table
        .preview(8, &mut buffer, ADDRESS_SPACE)
        .unwrap();
    assert_eq!(buffer, [0x2c; 4]);
}

#[test]
fn non_readable_memory_denies_the_whole_read() {
    let mut machine = Machine::build()
        .insert_bus(ADDRESS_SPACE, 64)
        .build_standard_memory(
            StandardMemoryConfig {
                max_word_size: 8,
                readable: false,
                writable: true,
                assigned_range: 0..16,
                assigned_address_space: ADDRESS_SPACE,
                initial_contents: StandardMemoryInitialContents::Value { value: 0 },
            },
            Vec::new(),
        )
        .0
        .build();
    let mut buffer = vec![0u8; 4];
    let err = machine
        .memory_translation_table
        .read(0, &mut buffer, ADDRESS_SPACE)
        .unwrap_err();
    assert_eq!(
        err.0.entry_at(0),
        (0, 4, ReadMemoryOperationErrorFailureType::Denied)
    );
}

#[test]
fn access_size_constants() {
    assert!(multiemu::is_valid_access_size(1));
    assert!(multiemu::is_valid_access_size(2));
    assert!(multiemu::is_valid_access_size(4));
    assert!(multiemu::is_valid_access_size(8));
    assert!(!multiemu::is_valid_access_size(0));
    assert!(!multiemu::is_valid_access_size(3));
    assert!(!multiemu::is_valid_access_size(16));
    assert_eq!(multiemu::MAX_ACCESS_SIZE, 8);
}

#[test]
fn address_spaces_counts_declared_busses() {
    let machine = Machine::build()
        .insert_bus(0, 64)
        .insert_bus(1, 16)
        .insert_bus(1, 24)
        .build();
    assert_eq!(machine.memory_translation_table.address_spaces(), 2);
}
