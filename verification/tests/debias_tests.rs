use mersenne::debias::{to_von_neumann, von_neumann};

#[test]
fn mixed_pairs_emit_their_bits() {
    assert_eq!(to_von_neumann("0110"), "01");
    assert_eq!(von_neumann("0110"), "01");
}

#[test]
fn equal_pairs_emit_nothing() {
    assert_eq!(to_von_neumann("0011"), "");
    assert_eq!(von_neumann("0011"), "");
    assert_eq!(von_neumann("0000"), "");
    assert_eq!(von_neumann("1111"), "");
}

#[test]
fn trailing_unpaired_character_is_discarded() {
    assert_eq!(to_von_neumann("010"), "0");
    assert_eq!(von_neumann("010"), "0");
    assert_eq!(von_neumann("1"), "");
}

#[test]
fn lines_are_filtered_independently() {
    assert_eq!(to_von_neumann("0101\n1010"), "00\n11");
}

#[test]
fn empty_input_stays_empty() {
    assert_eq!(to_von_neumann(""), "");
    assert_eq!(von_neumann(""), "");
}

#[test]
fn trailing_newline_is_kept() {
    assert_eq!(to_von_neumann("01\n"), "0\n");
    assert_eq!(to_von_neumann("\n"), "\n");
}

#[test]
fn rendered_draws_can_be_debiased() {
    let values = mersenne::twister::draw_sequence(4, 5);
    let lines: Vec<String> = values.iter().map(|v| format!("{:032b}", v)).collect();
    let text = lines.join("\n");
    let filtered = to_von_neumann(&text);
    assert_eq!(filtered.split('\n').count(), 5);
    for line in filtered.split('\n') {
        assert!(line.len() <= 16);
        assert!(line.chars().all(|c| c == '0' || c == '1'));
    }
}
