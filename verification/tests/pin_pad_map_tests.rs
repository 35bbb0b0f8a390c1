use eda_cli_core::pin_pad_map::{
    GatePins, PadMapError, PinPadEntry, PinPadMapError, infer_gate_for_pin, parse_pad_map_entries,
    parse_pin_pad_map_entries, validate_part_pad_map, validate_pin_pad_map,
};

fn id(n: u128) -> String {
    format!("00000000-0000-0000-0000-{:012x}", n)
}

fn gates() -> Vec<GatePins> {
    vec![
        GatePins { gate: 0xa, pins: vec![1, 2] },
        GatePins { gate: 0xb, pins: vec![3, 4] },
        GatePins { gate: 0xc, pins: vec![4] },
    ]
}

fn e(pad: u128, gate: u128, pin: u128) -> PinPadEntry {
    PinPadEntry { pad, gate, pin }
}

#[test]
fn the_gate_of_a_pin_must_be_unique() {
    assert_eq!(infer_gate_for_pin(&gates(), 1), Ok(0xa));
    assert_eq!(infer_gate_for_pin(&gates(), 3), Ok(0xb));
    assert_eq!(infer_gate_for_pin(&gates(), 4), Err(PinPadMapError::AmbiguousPin { pin: 4 }));
    assert_eq!(infer_gate_for_pin(&gates(), 9), Err(PinPadMapError::PinNotInEntity { pin: 9 }));
}

#[test]
fn pin_pad_entries_in_both_forms() {
    let entries = vec![format!("{}:{}", id(2), id(0x100)), format!("{}:{}:{}", id(0x101), id(0xb), id(4))];
    let r = parse_pin_pad_map_entries(&entries, &gates()).unwrap();
    assert_eq!(r, vec![e(0x100, 0xa, 2), e(0x101, 0xb, 4)]);
}

#[test]
fn pin_pad_entry_errors() {
    let g = gates();
    let bad = vec![s("x")];
    assert_eq!(parse_pin_pad_map_entries(&bad, &g), Err(PinPadMapError::BadEntryFormat { index: 0 }));
    let bad = vec![format!("{}:{}", id(1), id(2)), format!("a:b:c:d")];
    assert_eq!(parse_pin_pad_map_entries(&bad, &g), Err(PinPadMapError::BadEntryFormat { index: 1 }));
    let bad = vec![format!("nope:{}", id(1))];
    assert_eq!(parse_pin_pad_map_entries(&bad, &g), Err(PinPadMapError::InvalidPin { index: 0 }));
    let bad = vec![format!("{}:nope", id(1))];
    assert_eq!(parse_pin_pad_map_entries(&bad, &g), Err(PinPadMapError::InvalidPad { index: 0 }));
    let bad = vec![format!("{}:nope:{}", id(1), id(1))];
    assert_eq!(parse_pin_pad_map_entries(&bad, &g), Err(PinPadMapError::InvalidGate { index: 0 }));
    let bad = vec![format!("{}:{}", id(4), id(7))];
    assert_eq!(parse_pin_pad_map_entries(&bad, &g), Err(PinPadMapError::AmbiguousPin { pin: 4 }));
    let bad = vec![format!("{}:{}", id(1), id(7)), format!("{}:{}:{}", id(7), id(0xb), id(3))];
    assert_eq!(parse_pin_pad_map_entries(&bad, &g), Err(PinPadMapError::DuplicatePad { pad: 7 }));
    assert_eq!(parse_pin_pad_map_entries(&[], &g), Ok(vec![]));
}

fn s(v: &str) -> String {
    v.to_string()
}

#[test]
fn pin_pad_map_validation() {
    let g = gates();
    let pads = [0x100u128, 0x101, 0x102];
    assert_eq!(validate_pin_pad_map(&[e(0x100, 0xa, 1), e(0x101, 0xb, 3)], &g, &pads, None, 5), Ok(()));
    assert_eq!(validate_pin_pad_map(&[], &g, &pads, None, 5), Err(PinPadMapError::NoMappings));
    assert_eq!(
        validate_pin_pad_map(&[e(0x100, 0xa, 1)], &g, &pads, Some(6), 5),
        Err(PinPadMapError::FootprintPackageMismatch)
    );
    assert_eq!(validate_pin_pad_map(&[e(0x100, 0xa, 1)], &g, &pads, Some(5), 5), Ok(()));
    assert_eq!(
        validate_pin_pad_map(&[e(0x100, 0xa, 1), e(0x100, 0xa, 2)], &g, &pads, None, 5),
        Err(PinPadMapError::DuplicatePad { pad: 0x100 })
    );
    assert_eq!(
        validate_pin_pad_map(&[e(0x100, 0xa, 1), e(0x101, 0xa, 1)], &g, &pads, None, 5),
        Err(PinPadMapError::DuplicateGatePin { gate: 0xa, pin: 1 })
    );
    assert_eq!(
        validate_pin_pad_map(&[e(0x100, 0xf, 1)], &g, &pads, None, 5),
        Err(PinPadMapError::NoGate { gate: 0xf })
    );
    assert_eq!(
        validate_pin_pad_map(&[e(0x100, 0xa, 3)], &g, &pads, None, 5),
        Err(PinPadMapError::NoPinInUnit { pin: 3 })
    );
    assert_eq!(
        validate_pin_pad_map(&[e(0x999, 0xa, 1)], &g, &pads, None, 5),
        Err(PinPadMapError::NoPad { pad: 0x999 })
    );
}

#[test]
fn pad_map_entries() {
    let ok = vec![format!("{}:{}:{}", id(0x100), id(0xa), id(1))];
    assert_eq!(parse_pad_map_entries(&ok), Ok(vec![e(0x100, 0xa, 1)]));
    assert_eq!(parse_pad_map_entries(&[s("abc")]), Err(PadMapError::MissingGate { index: 0 }));
    assert_eq!(parse_pad_map_entries(&[s("a:b")]), Err(PadMapError::MissingPin { index: 0 }));
    assert_eq!(parse_pad_map_entries(&[s("a:b:c:d")]), Err(PadMapError::TooManyFields { index: 0 }));
    assert_eq!(parse_pad_map_entries(&[s("a:b:c")]), Err(PadMapError::InvalidPad { index: 0 }));
    let bad = vec![ok[0].clone(), format!("{}:x:{}", id(1), id(1))];
    assert_eq!(parse_pad_map_entries(&bad), Err(PadMapError::InvalidGate { index: 1 }));
    let bad = vec![format!("{}:{}:x", id(1), id(1))];
    assert_eq!(parse_pad_map_entries(&bad), Err(PadMapError::InvalidPin { index: 0 }));
}

#[test]
fn part_pad_map_validation() {
    let g = gates();
    let pads = [0x100u128, 0x101];
    assert_eq!(validate_part_pad_map(&[e(0x100, 0xa, 1), e(0x101, 0xa, 1)], &g, &pads), Ok(()));
    assert_eq!(validate_part_pad_map(&[], &g, &pads), Err(PadMapError::NoEntries));
    assert_eq!(
        validate_part_pad_map(&[e(0x100, 0xa, 1), e(0x100, 0xb, 3)], &g, &pads),
        Err(PadMapError::DuplicatePad { pad: 0x100 })
    );
    assert_eq!(validate_part_pad_map(&[e(0x555, 0xf, 9)], &g, &pads), Err(PadMapError::NoPad { pad: 0x555 }));
    assert_eq!(validate_part_pad_map(&[e(0x100, 0xf, 9)], &g, &pads), Err(PadMapError::NoGate { gate: 0xf }));
    assert_eq!(validate_part_pad_map(&[e(0x100, 0xb, 1)], &g, &pads), Err(PadMapError::NoPinInUnit { pin: 1 }));
}
