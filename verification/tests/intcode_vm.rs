use intcode::model::VmError;
use intcode::vm::IntcodeProgram;

#[test]
fn mult_op_with_modes() {
    // execute program "1002,4,3,4,33"
    let mut prg = IntcodeProgram::new(&"1002,4,3,4,33".to_owned(), None).unwrap();

    let expected_mem: Vec<i64> = vec![1002, 4, 3, 4, 33];
    for i in 0..expected_mem.len() {
        assert_eq!(prg.get_value(i as u64), expected_mem[i]);
    }

    // last value should be exit opcode
    assert_eq!(prg.run().unwrap(), ());
    let final_mem: Vec<i64> = vec![1002, 4, 3, 4, 99];
    for i in 0..final_mem.len() {
        assert_eq!(prg.get_value(i as u64), final_mem[i]);
    }
}

#[test]
fn add_op_with_negatives() {
    // execute program "1101,100,-1,4,0"
    let mut prg = IntcodeProgram::new(&"1101,100,-1,4,0".to_owned(), None).unwrap();

    let expected_mem: Vec<i64> = vec![1101, 100, -1, 4, 0];
    for i in 0..expected_mem.len() {
        assert_eq!(prg.get_value(i as u64), expected_mem[i]);
    }

    // last value should be exit opcode
    assert_eq!(prg.run().unwrap(), ());
    let final_mem: Vec<i64> = vec![1101, 100, -1, 4, 99];
    for i in 0..final_mem.len() {
        assert_eq!(prg.get_value(i as u64), final_mem[i]);
    }
}

#[test]
fn intcode_mult_op_with_modes() {
    let mut prg = IntcodeProgram::new(&"1002,4,3,4,33".to_owned(), None).unwrap();
    assert_eq!(prg.run().unwrap(), ());
    assert_eq!(prg.get_value(4), 99);
}

#[test]
fn intcode_add_op_with_negatives() {
    let mut prg = IntcodeProgram::new(&"1101,100,-1,4,0".to_owned(), None).unwrap();
    assert_eq!(prg.run().unwrap(), ());
    assert_eq!(prg.get_value(4), 99);
}

#[test]
fn quine_program() {
    let mut prg = IntcodeProgram::new(
        &"109,1,204,-1,1001,100,1,100,1008,100,16,101,1006,101,0,99".to_owned(),
        Some(Vec::<i64>::new()),
    )
    .unwrap();

    let expected_mem: Vec<i64> = vec![
        109, 1, 204, -1, 1001, 100, 1, 100, 1008, 100, 16, 101, 1006, 101, 0, 99,
    ];
    for i in 0..expected_mem.len() {
        assert_eq!(prg.get_value(i as u64), expected_mem[i]);
    }

    // program should output its own memory
    assert_eq!(prg.run().unwrap(), ());
    assert_eq!(prg.output, expected_mem);
}

#[test]
fn output_16_digit_number() {
    let mut prg = IntcodeProgram::new(
        &"1102,34915192,34915192,7,4,7,99,0".to_owned(),
        Some(Vec::<i64>::new()),
    )
    .unwrap();

    let expected_mem: Vec<i64> = vec![1102, 34915192, 34915192, 7, 4, 7, 99, 0];
    for i in 0..expected_mem.len() {
        assert_eq!(prg.get_value(i as u64), expected_mem[i]);
    }

    // program should output a 16-digit number
    assert_eq!(prg.run().unwrap(), ());
    assert_eq!(prg.output[0], 1219070632396864);
}

#[test]
fn output_middle_number() {
    let mut prg = IntcodeProgram::new(
        &"104,1125899906842624,99".to_owned(),
        Some(Vec::<i64>::new()),
    )
    .unwrap();
    let expected_mem: Vec<i64> = vec![104, 1125899906842624, 99];

    // program should output the second number in memory
    assert_eq!(prg.run().unwrap(), ());
    assert_eq!(prg.output[0], expected_mem[1]);
}

#[test]
fn add_and_mult_full_memory() {
    let mut prg = IntcodeProgram::new(&"1,9,10,3,2,3,11,0,99,30,40,50".to_owned(), None).unwrap();
    assert_eq!(prg.run().unwrap(), ());
    let expected_mem: Vec<i64> = vec![3500, 9, 10, 70, 2, 3, 11, 0, 99, 30, 40, 50];
    for i in 0..expected_mem.len() {
        assert_eq!(prg.get_value(i as u64), expected_mem[i]);
    }
    assert!(!prg.active);
}

#[test]
fn small_add_programs() {
    let mut prg = IntcodeProgram::new(&"1,0,0,0,99".to_owned(), None).unwrap();
    assert_eq!(prg.run().unwrap(), ());
    assert_eq!(prg.get_value(0), 2);

    let mut prg = IntcodeProgram::new(&"2,3,0,3,99".to_owned(), None).unwrap();
    assert_eq!(prg.run().unwrap(), ());
    assert_eq!(prg.get_value(3), 6);

    let mut prg = IntcodeProgram::new(&"2,4,4,5,99,0".to_owned(), None).unwrap();
    assert_eq!(prg.run().unwrap(), ());
    assert_eq!(prg.get_value(5), 9801);

    let mut prg = IntcodeProgram::new(&"1,1,1,4,99,5,6,0,99".to_owned(), None).unwrap();
    assert_eq!(prg.run().unwrap(), ());
    assert_eq!(prg.get_value(0), 30);
    assert_eq!(prg.get_value(4), 2);
}

#[test]
fn equals_position_mode() {
    // outputs 1 exactly when the input equals 8
    let mut prg =
        IntcodeProgram::new(&"3,9,8,9,10,9,4,9,99,-1,8".to_owned(), Some(vec![8])).unwrap();
    assert_eq!(prg.run().unwrap(), ());
    assert_eq!(prg.output, vec![1]);

    for other in [-8, 0, 7, 9, 1000] {
        let mut prg =
            IntcodeProgram::new(&"3,9,8,9,10,9,4,9,99,-1,8".to_owned(), Some(vec![other]))
                .unwrap();
        assert_eq!(prg.run().unwrap(), ());
        assert_eq!(prg.output, vec![0]);
    }
}

#[test]
fn less_than_immediate_mode() {
    let mut prg = IntcodeProgram::new(&"3,3,1107,-1,8,3,4,3,99".to_owned(), Some(vec![3])).unwrap();
    assert_eq!(prg.run().unwrap(), ());
    assert_eq!(prg.output, vec![1]);

    let mut prg = IntcodeProgram::new(&"3,3,1107,-1,8,3,4,3,99".to_owned(), Some(vec![9])).unwrap();
    assert_eq!(prg.run().unwrap(), ());
    assert_eq!(prg.output, vec![0]);
}

#[test]
fn jump_position_mode() {
    // outputs 0 for input 0, else 1
    let mut prg = IntcodeProgram::new(
        &"3,12,6,12,15,1,13,14,13,4,13,99,-1,0,1,9".to_owned(),
        Some(vec![0]),
    )
    .unwrap();
    assert_eq!(prg.run().unwrap(), ());
    assert_eq!(prg.output, vec![0]);

    let mut prg = IntcodeProgram::new(
        &"3,12,6,12,15,1,13,14,13,4,13,99,-1,0,1,9".to_owned(),
        Some(vec![5]),
    )
    .unwrap();
    assert_eq!(prg.run().unwrap(), ());
    assert_eq!(prg.output, vec![1]);
}

#[test]
fn compare_around_eight() {
    // outputs 999, 1000 or 1001 as the input is below, equal to or above 8
    let text = "3,21,1008,21,8,20,1005,20,22,107,8,21,20,1006,20,31,1106,0,36,98,0,0,1002,21,125,20,4,20,1105,1,46,104,999,1105,1,46,1101,1000,1,20,4,20,1105,1,46,98,99";
    for (input, expected) in [(5, 999), (8, 1000), (11, 1001)] {
        let mut prg = IntcodeProgram::new(&text.to_owned(), Some(vec![input])).unwrap();
        assert_eq!(prg.run().unwrap(), ());
        assert_eq!(prg.output, vec![expected]);
    }
}

#[test]
fn suspends_on_missing_input_and_resumes() {
    let mut prg = IntcodeProgram::new(&"3,0,99".to_owned(), Some(vec![])).unwrap();
    // no input yet: the machine suspends before the input instruction
    assert_eq!(prg.run().unwrap(), ());
    assert!(prg.active);
    prg.inject_input(42);
    assert_eq!(prg.run().unwrap(), ());
    assert!(!prg.active);
    assert_eq!(prg.get_value(0), 42);
}

#[test]
fn run_until_input_stops_only_on_empty_queue() {
    // with the value already queued the input instruction is executed
    let mut prg = IntcodeProgram::new(&"3,0,4,0,99".to_owned(), Some(vec![7])).unwrap();
    assert_eq!(prg.run_until_input().unwrap(), ());
    assert!(!prg.active);
    assert_eq!(prg.output, vec![7]);
}

#[test]
fn relative_base_addressing() {
    // 109,5 sets the base to 5; 204,0 outputs the value at address 5
    let mut prg =
        IntcodeProgram::new(&"109,5,204,0,99,77".to_owned(), Some(vec![])).unwrap();
    assert_eq!(prg.run().unwrap(), ());
    assert_eq!(prg.output, vec![77]);
}

#[test]
fn sparse_memory_reads_zero_and_grows() {
    // read far beyond the program, then write there and read it back
    let mut prg = IntcodeProgram::new(&"4,1000,1101,3,4,1000,4,1000,99".to_owned(), Some(vec![]))
        .unwrap();
    assert_eq!(prg.run().unwrap(), ());
    assert_eq!(prg.output, vec![0, 7]);
    assert_eq!(prg.get_value(1000), 7);
}

#[test]
fn invalid_opcode_is_fatal() {
    let mut prg = IntcodeProgram::new(&"77,0,0,0,99".to_owned(), None).unwrap();
    assert_eq!(prg.run(), Err(VmError::InvalidOpcode));
    assert!(prg.active);
}

#[test]
fn negative_instruction_is_invalid_opcode() {
    let mut prg = IntcodeProgram::new(&"-9223372036854775808,99".to_owned(), None).unwrap();
    assert_eq!(prg.get_value(0), i64::MIN);
    assert_eq!(prg.run(), Err(VmError::InvalidOpcode));
}

#[test]
fn unknown_parameter_mode_is_fatal() {
    // 302: multiply with mode digit 3 on its first parameter
    let mut prg = IntcodeProgram::new(&"302,0,0,0,99".to_owned(), None).unwrap();
    assert_eq!(prg.run(), Err(VmError::UnrecognizedParameterMode));
}

#[test]
fn immediate_store_is_rejected() {
    // 11101: add whose store parameter is in immediate mode
    let mut prg = IntcodeProgram::new(&"11101,1,2,3,99".to_owned(), None).unwrap();
    assert_eq!(prg.run(), Err(VmError::UnrecognizedParameterMode));
}

#[test]
fn negative_address_is_fatal() {
    // output in position mode with a negative operand
    let mut prg = IntcodeProgram::new(&"4,-1,99".to_owned(), Some(vec![])).unwrap();
    assert_eq!(prg.run(), Err(VmError::AddressOutOfRange));
}

#[test]
fn arithmetic_overflow_is_fatal() {
    // adding the largest value to itself leaves the 64-bit range
    let mut prg = IntcodeProgram::new(
        &"1101,9223372036854775807,9223372036854775807,0,99".to_owned(),
        None,
    )
    .unwrap();
    assert_eq!(prg.run(), Err(VmError::ArithmeticOverflow));
}

#[test]
fn single_run_is_deterministic() {
    let text = "109,1,204,-1,1001,100,1,100,1008,100,16,101,1006,101,0,99".to_owned();
    let mut first = IntcodeProgram::new(&text, Some(vec![])).unwrap();
    let mut second = IntcodeProgram::new(&text, Some(vec![])).unwrap();
    assert_eq!(first.run(), second.run());
    assert_eq!(first.output, second.output);
    assert_eq!(first.active, second.active);
}
