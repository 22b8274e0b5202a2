use clocked_vcd::errors::{DecodeError, HeaderFault, TraceFault};
use clocked_vcd::reader::read_clocked_vcd;

/// The header shape the decoder requires, with one identifier per catalog
/// slot: `i0` for the clock, then `i1`, `i2`, ... in catalog order.
fn full_header() -> String {
    let mut s = String::new();
    let mut id = 0usize;
    let mut var = |s: &mut String, width: u32, name: &str| {
        s.push_str(&format!("$var wire {} i{} {} $end\n", width, id, name));
        id += 1;
    };
    s.push_str("$scope module TOP $end\n");
    var(&mut s, 1, "clk");
    s.push_str("$scope module core $end\n");
    for (scope, count, width) in [
        ("commit_map_table", 32, 5u32),
        ("rename_map_table", 32, 5),
        ("phys_regfile", 64, 8),
    ] {
        s.push_str(&format!("$scope module {} $end\n", scope));
        for i in 0..count {
            var(&mut s, width, &format!("regfile[{}]", i));
        }
        s.push_str("$upscope $end\n");
    }
    s.push_str("$scope module rob $end\n");
    for e in 0..16 {
        for b in 0..2 {
            s.push_str(&format!("$scope module rob_entry[{}][{}] $end\n", e, b));
            var(&mut s, 1, "entry_valid");
            var(&mut s, 6, "phys_rd");
            var(&mut s, 6, "arch_rd");
            var(&mut s, 1, "commit_ready");
            s.push_str("$upscope $end\n");
        }
    }
    s.push_str("$upscope $end\n");
    s.push_str("$scope module issue_queue $end\n");
    for i in 0..32 {
        s.push_str(&format!("$scope module issue_queue[{}] $end\n", i));
        var(&mut s, 1, "entry_valid");
        var(&mut s, 8, "alu_cmd");
        var(&mut s, 1, "op1_valid");
        var(&mut s, 8, "op1_data");
        var(&mut s, 1, "op2_valid");
        var(&mut s, 8, "op2_type");
        var(&mut s, 8, "op2_data");
        var(&mut s, 8, "phys_rd");
        var(&mut s, 8, "bank_addr");
        var(&mut s, 8, "rob_addr");
        s.push_str("$upscope $end\n");
    }
    s.push_str("$upscope $end\n");
    s.push_str("$upscope $end\n");
    s.push_str("$upscope $end\n");
    s.push_str("$enddefinitions $end\n");
    s
}

fn trace_with(body: &str) -> Vec<u8> {
    let mut s = full_header();
    s.push_str(body);
    s.into_bytes()
}

#[test]
fn three_edges_in_a_trace_file() {
    let t = trace_with("#0\n0i0\n#10\n1i0\n#20\n0i0\n#30\n1i0\n#40\n0i0\n#50\n1i0\n");
    let steps = read_clocked_vcd(&t).unwrap();
    assert_eq!(steps.len(), 3);
}

#[test]
fn field_mapping_from_a_trace_file() {
    // commit_map_table slot 5 carries identifier i6.
    let t = trace_with("#0\n0i0\nb00101 i6\n#10\n1i0\n");
    let steps = read_clocked_vcd(&t).unwrap();
    assert_eq!(steps.len(), 1);
    let step = &steps[0];
    for i in 0..32 {
        let expected = if i == 5 { 5 } else { 0 };
        assert_eq!(step.regfiles.commit_map_table[i], expected);
    }
    for row in &step.rob {
        for entry in row {
            assert!(!entry.entry_valid);
        }
    }
    for entry in &step.isq {
        assert!(!entry.entry_valid);
    }
}

#[test]
fn same_timestamp_ordering_is_log_order() {
    // Both changes sit at timestamp 10: the one written before the edge is
    // in that cycle's step, the one after only in the next cycle's.
    let t = trace_with("#0\n0i0\n#10\nb00001 i1\n1i0\nb00001 i2\n#20\n0i0\n#30\n1i0\n");
    let steps = read_clocked_vcd(&t).unwrap();
    assert_eq!(steps.len(), 2);
    assert_eq!(steps[0].regfiles.commit_map_table[0], 1);
    assert_eq!(steps[0].regfiles.commit_map_table[1], 0);
    assert_eq!(steps[1].regfiles.commit_map_table[0], 1);
    assert_eq!(steps[1].regfiles.commit_map_table[1], 1);
}

#[test]
fn decoding_a_file_twice_is_identical() {
    let t = trace_with("#0\n0i0\nb01010 i3\n#10\n1i0\n#20\n0i0\nbzx10 zz\n#30\n1i0\n");
    let a = read_clocked_vcd(&t).unwrap();
    let b = read_clocked_vcd(&t).unwrap();
    assert_eq!(a, b);
}

#[test]
fn zero_edges_is_empty_not_an_error() {
    let t = trace_with("#0\n0i0\nb00111 i1\n#10\n0i0\n#20\n0i0\n");
    let steps = read_clocked_vcd(&t).unwrap();
    assert!(steps.is_empty());
}

#[test]
fn missing_clock_is_missing_signal() {
    let t = b"$scope module TOP $end\n$upscope $end\n$enddefinitions $end\n".to_vec();
    match read_clocked_vcd(&t) {
        Err(DecodeError::MissingSignal(slot)) => assert_eq!(slot, 0),
        other => panic!("expected a missing clock, got {:?}", other),
    }
}

#[test]
fn unparsable_header_is_header_malformed() {
    let t = b"this is not a trace".to_vec();
    match read_clocked_vcd(&t) {
        Err(DecodeError::HeaderMalformed(HeaderFault::Unparsable(_))) => {}
        other => panic!("expected an unparsable header, got {:?}", other),
    }
}

#[test]
fn over_wide_clock_declaration_is_rejected() {
    let t = b"$scope module TOP $end\n$var wire 33 c! clk $end\n$upscope $end\n$enddefinitions $end\n"
        .to_vec();
    match read_clocked_vcd(&t) {
        Err(DecodeError::HeaderMalformed(HeaderFault::WidthTooWide { slot, width })) => {
            assert_eq!(slot, 0);
            assert_eq!(width, 33);
        }
        other => panic!("expected a width rejection, got {:?}", other),
    }
}

#[test]
fn garbage_in_the_change_log_is_trace_corrupt() {
    let t = trace_with("#0\n0i0\nqqq\n#10\n1i0\n");
    match read_clocked_vcd(&t) {
        Err(DecodeError::TraceCorrupt(TraceFault::Malformed(_))) => {}
        other => panic!("expected a corrupt change log, got {:?}", other),
    }
}

#[test]
fn unknown_and_high_impedance_digits_decode_low() {
    // phys_regfile entry 0 carries identifier i65; x and z digits read 0.
    let t = trace_with("#0\n0i0\nb1xz1000z i65\n#10\n1i0\n");
    let steps = read_clocked_vcd(&t).unwrap();
    assert_eq!(steps[0].regfiles.physical_regfile[0], 0b10010000);
}
