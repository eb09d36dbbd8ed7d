use intcode::model::VmError;
use intcode::parse::parse_program_text;
use intcode::vm::IntcodeProgram;

#[test]
fn parses_values_in_order() {
    let vals = parse_program_text(&"1,-2,3,0,-40".to_owned()).unwrap();
    assert_eq!(vals, vec![1, -2, 3, 0, -40]);
}

#[test]
fn parses_extreme_values() {
    let vals =
        parse_program_text(&"-9223372036854775808,9223372036854775807".to_owned()).unwrap();
    assert_eq!(vals, vec![i64::MIN, i64::MAX]);
    // leading zeros are plain decimal notation
    let vals = parse_program_text(&"007,-0008".to_owned()).unwrap();
    assert_eq!(vals, vec![7, -8]);
}

#[test]
fn empty_text_is_malformed() {
    assert_eq!(
        IntcodeProgram::new(&"".to_owned(), None).err().unwrap(),
        VmError::MalformedProgramText
    );
}

#[test]
fn bad_tokens_are_malformed() {
    for text in ["1,x,3", "1,,3", "-", "5,", "1, 2", "12-3", "1.5", "99\n"] {
        assert_eq!(
            parse_program_text(&text.to_owned()).err().unwrap(),
            VmError::MalformedProgramText,
            "text {:?} should fail to load",
            text
        );
    }
}

#[test]
fn out_of_range_values_are_malformed() {
    assert_eq!(
        parse_program_text(&"9223372036854775808".to_owned()).err().unwrap(),
        VmError::MalformedProgramText
    );
    assert_eq!(
        parse_program_text(&"-9223372036854775809".to_owned()).err().unwrap(),
        VmError::MalformedProgramText
    );
    assert_eq!(
        parse_program_text(&"00000000000000000000099".to_owned()).unwrap(),
        vec![99]
    );
}

#[test]
fn loaded_machine_starts_fresh() {
    let prg = IntcodeProgram::new(&"99".to_owned(), Some(vec![1, 2])).unwrap();
    assert!(prg.active);
    assert!(prg.output.is_empty());
    assert_eq!(prg.get_value(0), 99);
    assert_eq!(prg.get_value(1), 0);
}

#[test]
fn noun_verb_search_finds_first_match() {
    // cells 40 and 41 hold the only factor pair of the search target
    let mut text = String::from("2,0,0,0,99");
    for _ in 5..40 {
        text.push_str(",0");
    }
    text.push_str(",1120,17581");
    let values = parse_program_text(&text).unwrap();
    assert_eq!(intcode::search::find_input(&values).unwrap(), (40, 41));
    assert_eq!(1120 * 17581, intcode::search::SEARCH_TARGET);
}

#[test]
fn noun_verb_search_reports_no_match() {
    let values = parse_program_text(&"1,0,0,0,99".to_owned()).unwrap();
    assert_eq!(intcode::search::find_input(&values).unwrap(), (0, 0));
}
