use clocked_vcd::errors::{DecodeError, HeaderFault, TraceFault};
use clocked_vcd::logic::{decode_bits, encode_bits, Logic};
use clocked_vcd::registry::{build_registry, token_key, Registry, VarInfo, SLOT_COUNT};
use clocked_vcd::stream::{decode_events, VcdEvent};
use clocked_vcd::reader::read_clocked_vcd;

fn tok(slot: usize) -> Vec<u8> {
    format!("i{}", slot).into_bytes()
}

fn width_of_slot(slot: usize) -> u32 {
    if slot == 0 {
        1
    } else if slot < 65 {
        5
    } else if slot < 129 {
        8
    } else if slot < 257 {
        match (slot - 129) % 4 {
            0 | 3 => 1,
            _ => 6,
        }
    } else {
        match (slot - 257) % 10 {
            0 | 2 | 4 => 1,
            _ => 8,
        }
    }
}

fn bindings_full() -> Vec<Option<VarInfo>> {
    (0..SLOT_COUNT)
        .map(|s| {
            Some(VarInfo {
                token: tok(s),
                width: width_of_slot(s),
            })
        })
        .collect()
}

fn registry_full() -> Registry {
    build_registry(&bindings_full()).unwrap()
}

fn scalar(slot: usize, v: Logic) -> VcdEvent {
    VcdEvent::ScalarChange {
        token: tok(slot),
        value: v,
    }
}

fn vector(slot: usize, s: &str) -> VcdEvent {
    VcdEvent::VectorChange {
        token: tok(slot),
        bits: bits(s),
    }
}

fn bits(s: &str) -> Vec<Logic> {
    s.chars()
        .map(|c| match c {
            '0' => Logic::L0,
            '1' => Logic::L1,
            'x' => Logic::LX,
            _ => Logic::LZ,
        })
        .collect()
}

#[test]
fn decode_basic_vectors() {
    assert_eq!(decode_bits(&bits("00101")), 5);
    assert_eq!(decode_bits(&bits("")), 0);
    assert_eq!(decode_bits(&bits("1")), 1);
    assert_eq!(decode_bits(&bits("10000000")), 128);
    assert_eq!(
        decode_bits(&bits("11111111111111111111111111111111")),
        u32::MAX
    );
}

#[test]
fn decode_unknown_and_high_impedance_as_zero() {
    assert_eq!(decode_bits(&bits("1xz1")), decode_bits(&bits("1001")));
    assert_eq!(decode_bits(&bits("xz")), 0);
    assert_eq!(decode_bits(&bits("z1x")), 2);
}

#[test]
fn decode_encode_roundtrip_on_driven_vectors() {
    for s in ["", "0", "1", "00101", "1111", "10000000", "01010101010101010101010101010101"] {
        let v = bits(s);
        let n = decode_bits(&v);
        assert_eq!(encode_bits(n, v.len()), v);
    }
}

#[test]
fn token_key_folds_bytes() {
    assert_eq!(token_key(&vec![33]), Some(33));
    assert_eq!(token_key(&vec![1, 2]), Some(258));
    assert_eq!(token_key(&vec![]), Some(0));
    // Sixteen bytes of 255 fold to exactly the largest key.
    assert_eq!(token_key(&vec![255; 16]), Some(u128::MAX));
    assert_eq!(token_key(&vec![255; 17]), None);
}

#[test]
fn registry_rejects_missing_clock() {
    let mut bs = bindings_full();
    bs[0] = None;
    assert_eq!(build_registry(&bs).err(), Some(DecodeError::MissingSignal(0)));
}

#[test]
fn registry_reports_first_missing_slot() {
    let mut bs = bindings_full();
    bs[100] = None;
    bs[200] = None;
    assert_eq!(
        build_registry(&bs).err(),
        Some(DecodeError::MissingSignal(100))
    );
}

#[test]
fn registry_rejects_wide_signal() {
    let mut bs = bindings_full();
    bs[1] = Some(VarInfo {
        token: tok(1),
        width: 33,
    });
    assert_eq!(
        build_registry(&bs).err(),
        Some(DecodeError::HeaderMalformed(HeaderFault::WidthTooWide {
            slot: 1,
            width: 33
        }))
    );
}

#[test]
fn registry_rejects_oversized_identifier() {
    let mut bs = bindings_full();
    bs[2] = Some(VarInfo {
        token: vec![40; 17],
        width: 5,
    });
    assert_eq!(
        build_registry(&bs).err(),
        Some(DecodeError::HeaderMalformed(
            HeaderFault::OversizedIdentifier { slot: 2 }
        ))
    );
}

#[test]
fn three_rising_edges_yield_three_steps() {
    let reg = registry_full();
    let events = vec![
        scalar(0, Logic::L0),
        scalar(0, Logic::L1),
        scalar(0, Logic::L0),
        scalar(0, Logic::L1),
        scalar(0, Logic::L0),
        scalar(0, Logic::L1),
    ];
    let steps = decode_events(&reg, &events).unwrap();
    assert_eq!(steps.len(), 3);
}

#[test]
fn clock_starting_unknown_needs_a_low_first() {
    let reg = registry_full();
    // The clock starts unknown, so a first change straight to high is not
    // a rising edge.
    let events = vec![scalar(0, Logic::L1), scalar(0, Logic::L0), scalar(0, Logic::L1)];
    let steps = decode_events(&reg, &events).unwrap();
    assert_eq!(steps.len(), 1);
}

#[test]
fn zero_edges_yield_empty_history() {
    let reg = registry_full();
    let events = vec![
        scalar(0, Logic::L0),
        vector(1, "00111"),
        scalar(0, Logic::L0),
    ];
    let steps = decode_events(&reg, &events).unwrap();
    assert_eq!(steps.len(), 0);
}

#[test]
fn field_mapping_of_commit_entry() {
    let reg = registry_full();
    let events = vec![
        scalar(0, Logic::L0),
        vector(6, "00101"), // commit_map_table index 5
        scalar(0, Logic::L1),
    ];
    let steps = decode_events(&reg, &events).unwrap();
    assert_eq!(steps.len(), 1);
    let step = &steps[0];
    for i in 0..32 {
        let expected = if i == 5 { 5 } else { 0 };
        assert_eq!(step.regfiles.commit_map_table[i], expected);
        assert_eq!(step.regfiles.rename_map_table[i], 0);
    }
    for i in 0..64 {
        assert_eq!(step.regfiles.physical_regfile[i], 0);
    }
    assert_eq!(step.rob.len(), 16);
    for row in &step.rob {
        assert_eq!(row.len(), 2);
        for entry in row {
            assert!(!entry.entry_valid);
            assert!(!entry.commit_ready);
            assert_eq!(entry.phys_rd, 0);
            assert_eq!(entry.arch_rd, 0);
        }
    }
    assert_eq!(step.isq.len(), 32);
    for entry in &step.isq {
        assert!(!entry.entry_valid);
        assert!(!entry.op1_valid);
        assert!(!entry.op2_valid);
        assert_eq!(entry.alu_cmd, 0);
    }
}

#[test]
fn rob_and_isq_fields_route_to_their_slots() {
    let reg = registry_full();
    // rob entry 3, bank 1: slots 129 + (3*2+1)*4 .. +4
    let base = 129 + 7 * 4;
    let isq_base = 257 + 4 * 10; // issue queue entry 4
    let events = vec![
        scalar(0, Logic::L0),
        scalar(base, Logic::L1),     // entry_valid
        vector(base + 1, "000110"),  // phys_rd = 6
        vector(base + 2, "000111"),  // arch_rd = 7
        scalar(base + 3, Logic::L1), // commit_ready
        scalar(isq_base, Logic::L1), // isq entry_valid
        vector(isq_base + 1, "00000011"), // alu_cmd = 3
        scalar(isq_base + 2, Logic::L1),  // op1_valid
        vector(isq_base + 9, "00001001"), // rob_addr = 9
        scalar(0, Logic::L1),
    ];
    let steps = decode_events(&reg, &events).unwrap();
    assert_eq!(steps.len(), 1);
    let e = &steps[0].rob[3][1];
    assert!(e.entry_valid);
    assert!(e.commit_ready);
    assert_eq!(e.phys_rd, 6);
    assert_eq!(e.arch_rd, 7);
    let q = &steps[0].isq[4];
    assert!(q.entry_valid);
    assert!(q.op1_valid);
    assert!(!q.op2_valid);
    assert_eq!(q.alu_cmd, 3);
    assert_eq!(q.rob_addr, 9);
    let other = &steps[0].rob[0][0];
    assert!(!other.entry_valid);
}

#[test]
fn scalar_change_to_wide_signal_is_corrupt() {
    let reg = registry_full();
    let events = vec![scalar(1, Logic::L1)];
    assert_eq!(
        decode_events(&reg, &events).err(),
        Some(DecodeError::TraceCorrupt(TraceFault::ScalarWidthMismatch {
            slot: 1,
            width: 5
        }))
    );
}

#[test]
fn vector_change_of_wrong_width_is_corrupt() {
    let reg = registry_full();
    let events = vec![vector(1, "001")];
    assert_eq!(
        decode_events(&reg, &events).err(),
        Some(DecodeError::TraceCorrupt(TraceFault::VectorWidthMismatch {
            slot: 1,
            width: 5,
            got: 3
        }))
    );
}

#[test]
fn oversized_event_identifier_is_corrupt() {
    let reg = registry_full();
    let events = vec![VcdEvent::ScalarChange {
        token: vec![50; 17],
        value: Logic::L1,
    }];
    assert_eq!(
        decode_events(&reg, &events).err(),
        Some(DecodeError::TraceCorrupt(TraceFault::OversizedIdentifier))
    );
}

#[test]
fn untracked_identifiers_are_ignored() {
    let reg = registry_full();
    let events = vec![
        scalar(0, Logic::L0),
        VcdEvent::ScalarChange {
            token: b"zz".to_vec(),
            value: Logic::L1,
        },
        VcdEvent::VectorChange {
            token: b"zy".to_vec(),
            bits: bits("1111111111111111"),
        },
        scalar(0, Logic::L1),
    ];
    let steps = decode_events(&reg, &events).unwrap();
    assert_eq!(steps.len(), 1);
    assert_eq!(steps[0].regfiles.commit_map_table, vec![0; 32]);
}

#[test]
fn same_events_decode_identically() {
    let reg = registry_full();
    let events = vec![
        scalar(0, Logic::L0),
        vector(2, "01010"),
        scalar(0, Logic::L1),
        scalar(0, Logic::L0),
        scalar(0, Logic::L1),
    ];
    let a = decode_events(&reg, &events).unwrap();
    let b = decode_events(&reg, &events).unwrap();
    assert_eq!(a, b);
}
