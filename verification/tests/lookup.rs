use num_bigint::BigUint;
use wrong_field::ecc::Error;
use wrong_field::gate::Witness;
use wrong_field::lookup::{LookupGate, LookupGroup, TableRow, TagEntry};

fn witness(id: usize) -> Witness {
    Witness { id, value: BigUint::from(id as u64 + 1) }
}

fn gate_of_tags() -> LookupGate {
    LookupGate {
        width: 3,
        bit_len_tag: vec![TagEntry { bit_len: 2, tag: 1 }, TagEntry { bit_len: 1, tag: 2 }],
    }
}

#[test]
fn the_table_holds_every_value_of_every_bit_length() {
    let table = gate_of_tags().layout_table();
    let expected = vec![
        TableRow { tag: 0, value: 0 },
        TableRow { tag: 1, value: 0 },
        TableRow { tag: 1, value: 1 },
        TableRow { tag: 1, value: 2 },
        TableRow { tag: 1, value: 3 },
        TableRow { tag: 2, value: 0 },
        TableRow { tag: 2, value: 1 },
    ];
    assert_eq!(table, expected);
    let empty = LookupGate { width: 1, bit_len_tag: vec![] };
    assert_eq!(empty.layout_table(), vec![TableRow { tag: 0, value: 0 }]);
}

#[test]
fn witnesses_are_placed_in_rows_of_the_width() {
    let gate = gate_of_tags();
    let lookups = vec![
        LookupGroup { bit_len: 1, witnesses: (0..4).map(witness).collect() },
        LookupGroup { bit_len: 2, witnesses: (4..7).map(witness).collect() },
        LookupGroup { bit_len: 2, witnesses: vec![] },
    ];
    let rows = gate.layout_advice(&lookups).unwrap();
    assert_eq!(rows.len(), 3);
    let ids = |row: usize| -> Vec<Option<usize>> {
        rows[row].cells.iter().map(|c| c.as_ref().map(|w| w.id)).collect()
    };
    assert_eq!(rows[0].tag, 2);
    assert_eq!(ids(0), vec![Some(0), Some(1), Some(2)]);
    assert_eq!(rows[1].tag, 2);
    assert_eq!(ids(1), vec![Some(3), None, None]);
    assert_eq!(rows[2].tag, 1);
    assert_eq!(ids(2), vec![Some(4), Some(5), Some(6)]);
    let (table, advice) = gate.layout(&lookups).unwrap();
    assert_eq!(table.len(), 7);
    assert_eq!(advice.len(), 3);
}

#[test]
fn a_bit_length_without_a_table_fails() {
    let gate = gate_of_tags();
    let lookups = vec![
        LookupGroup { bit_len: 1, witnesses: vec![witness(0)] },
        LookupGroup { bit_len: 3, witnesses: vec![witness(1)] },
    ];
    assert!(matches!(gate.layout_advice(&lookups), Err(Error::Synthesis)));
    assert!(matches!(gate.layout(&lookups), Err(Error::Synthesis)));
    assert_eq!(gate.tag(2), Some(1));
    assert_eq!(gate.tag(3), None);
}

#[test]
fn a_witness_goes_to_the_column_modulo_the_width() {
    let gate = gate_of_tags();
    let placed = gate.assign(7, &witness(9));
    assert_eq!(placed.column, 1);
    assert_eq!(placed.witness.id, 9);
    assert_eq!(gate.assign(3, &witness(9)).column, 0);
}
