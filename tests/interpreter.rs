use braindamage::tape::{index_left, index_right};
use braindamage::{Cell, Instruction, Interpreter, Parser, ParserMode, TestIo, VecBuffer};

type TestInterpreter<T> = Interpreter<T, TestIo<T>, TestIo<T>>;

fn interpreter_for<T: Cell>(
    src: &str,
    mode: ParserMode,
    size: usize,
    console: TestIo<T>,
    file: TestIo<T>,
) -> TestInterpreter<T> {
    let code: Vec<Instruction<T>> = Parser::new(mode).parse_script(src);
    Interpreter::new_with_io(code, size, console, file)
}

fn run_to_end<T: Cell>(interp: &mut TestInterpreter<T>) {
    while !interp.run(10_000) {}
}

#[test]
fn hello_prefix_writes_72() {
    for mode in [ParserMode::Release, ParserMode::Debug] {
        let console: TestIo<u8> = TestIo::new(Vec::new(), false, vec![72]);
        let file: TestIo<u8> = TestIo::new(Vec::new(), false, Vec::new());
        let mut interp = interpreter_for(
            "++++++++++[>+>+++>+++++++>++++++++++<<<<-]>>>++.",
            mode,
            30_000,
            console,
            file,
        );
        run_to_end(&mut interp);
        assert!(interp.is_halted());
        assert!(interp.console_io().is_done());
        assert!(!interp.console_io().has_failed());
        assert!(!interp.file_io().has_failed());
        assert_eq!(interp.index(), 3);
        let memory = interp.memory();
        assert_eq!(memory.get_value(0), 0);
        assert_eq!(memory.get_value(1), 10);
        assert_eq!(memory.get_value(2), 30);
        assert_eq!(memory.get_value(3), 72);
        assert_eq!(memory.get_value(4), 100);
    }
}

#[test]
fn step_reports_halt() {
    let console: TestIo<u8> = TestIo::new(Vec::new(), false, Vec::new());
    let file: TestIo<u8> = TestIo::new(Vec::new(), false, Vec::new());
    let mut interp = interpreter_for("+>", ParserMode::Release, 4, console, file);
    assert_eq!(interp.instruction_pointer(), 0);
    assert!(interp.step());
    assert_eq!(interp.memory().get_value(0), 1);
    assert!(interp.step());
    assert_eq!(interp.index(), 1);
    assert!(!interp.step());
    assert!(interp.is_halted());
    assert_eq!(interp.instruction_pointer(), 2);
}

#[test]
fn run_stops_after_the_step_budget() {
    let console: TestIo<u8> = TestIo::new(Vec::new(), false, Vec::new());
    let file: TestIo<u8> = TestIo::new(Vec::new(), false, Vec::new());
    // Never halts: the cell is never cleared.
    let mut interp = interpreter_for("+[]", ParserMode::Release, 1, console, file);
    assert!(!interp.run(1000));
    assert!(!interp.is_halted());
    assert_eq!(interp.memory().get_value(0), 1);
}

#[test]
fn loop_on_zero_cell_is_skipped() {
    let console: TestIo<u8> = TestIo::new(Vec::new(), false, Vec::new());
    let file: TestIo<u8> = TestIo::new(Vec::new(), false, Vec::new());
    let mut interp = interpreter_for("[+]>+", ParserMode::Release, 2, console, file);
    run_to_end(&mut interp);
    assert_eq!(interp.memory().get_value(0), 0);
    assert_eq!(interp.memory().get_value(1), 1);
}

#[test]
fn value_changes_wrap_around() {
    let console: TestIo<u8> = TestIo::new(Vec::new(), false, vec![255, 0]);
    let file: TestIo<u8> = TestIo::new(Vec::new(), false, Vec::new());
    let mut interp = interpreter_for("-.+.", ParserMode::Debug, 1, console, file);
    run_to_end(&mut interp);
    assert!(interp.console_io().is_done());
    assert!(!interp.console_io().has_failed());
}

#[test]
fn cursor_wraps_around_the_tape() {
    let console: TestIo<u16> = TestIo::new(Vec::new(), false, Vec::new());
    let file: TestIo<u16> = TestIo::new(Vec::new(), false, Vec::new());
    let mut interp = interpreter_for("<+>>+", ParserMode::Debug, 3, console, file);
    run_to_end(&mut interp);
    assert_eq!(interp.index(), 1);
    assert_eq!(interp.memory().get_value(2), 1);
    assert_eq!(interp.memory().get_value(1), 1);
}

#[test]
fn reads_and_writes_go_through_their_channels() {
    let console: TestIo<u32> = TestIo::new(vec![70000], false, vec![70001]);
    let file: TestIo<u32> = TestIo::new(vec![5], true, vec![5, 6]);
    let mut interp = interpreter_for(",+.>;:+:", ParserMode::Release, 2, console, file);
    run_to_end(&mut interp);
    assert!(interp.console_io().is_done());
    assert!(!interp.console_io().has_failed());
    assert!(interp.file_io().is_done());
    assert!(!interp.file_io().has_failed());
    assert_eq!(interp.memory().get_value(0), 70001);
    assert_eq!(interp.memory().get_value(1), 6);
}

#[test]
fn fused_and_unfused_programs_end_alike() {
    let src = "+++++[>++++++<-]>---<<<>>>>+++++++";
    for size in [3usize, 4, 7] {
        let mut ends = Vec::new();
        for mode in [ParserMode::Release, ParserMode::Debug] {
            let console: TestIo<u8> = TestIo::new(Vec::new(), false, Vec::new());
            let file: TestIo<u8> = TestIo::new(Vec::new(), false, Vec::new());
            let mut interp = interpreter_for(src, mode, size, console, file);
            run_to_end(&mut interp);
            let cells: Vec<u8> = (0..size).map(|i| interp.memory().get_value(i)).collect();
            ends.push((cells, interp.index()));
        }
        assert_eq!(ends[0], ends[1]);
    }
}

#[test]
fn cell_arithmetic_wraps() {
    assert_eq!(255u8.add_overflow(&1), 0);
    assert_eq!(0u8.sub_overflow(&1), 255);
    assert_eq!(65535u16.add_overflow(&2), 1);
    assert_eq!(1u16.sub_overflow(&2), 65535);
    assert_eq!(u32::MAX.add_overflow(&u32::MAX), u32::MAX - 1);
    assert_eq!(3u32.sub_overflow(&5), u32::MAX - 1);
    assert!(u8::zero().is_zero());
    assert_eq!(u16::from_u8(7), 7);
    assert_eq!(0x1234u16.to_byte(), 0x34);
    assert_eq!(0x1234u16.to_u32(), 0x1234);
}

#[test]
fn increments_cycle_through_all_values() {
    let start = 77u16;
    let one = u16::from_u8(1);
    let mut c = start;
    for _ in 0..65536u32 {
        c = c.add_overflow(&one);
    }
    assert_eq!(c, start);
    let mut d = 200u8;
    for _ in 0..256u32 {
        d = d.add_overflow(&1);
    }
    assert_eq!(d, 200);
    assert_eq!(17u8.add_overflow(&250).sub_overflow(&250), 17);
    assert_eq!(17u8.sub_overflow(&250).add_overflow(&250), 17);
}

#[test]
fn index_moves_wrap_modulo_tape_length() {
    assert_eq!(index_right(29_999, 1, 30_000), 0);
    assert_eq!(index_left(0, 1, 30_000), 29_999);
    assert_eq!(index_right(5, 30_000, 30_000), 5);
    assert_eq!(index_left(5, 30_000, 30_000), 5);
    assert_eq!(index_right(5, 60_003, 30_000), 8);
    let expected = ((30_000u128 - (usize::MAX as u128 % 30_000)) % 30_000) as usize;
    assert_eq!(index_left(0, usize::MAX, 30_000), expected);
}

#[test]
fn tape_starts_zeroed() {
    let mut tape: VecBuffer<u32> = VecBuffer::new(10);
    assert_eq!(tape.size(), 10);
    assert_eq!(tape.get_value(9), 0);
    tape.set_value(9, 123_456);
    assert_eq!(tape.get_value(9), 123_456);
    assert_eq!(tape.get_value(8), 0);
}

#[test]
fn dump_rows_hex_and_text() {
    let mut tape: VecBuffer<u8> = VecBuffer::new(40);
    tape.set_value(0, b'H');
    tape.set_value(1, b'i');
    tape.set_value(2, b'!');
    tape.set_value(33, 255);
    let text = String::from_utf8(tape.write_buffer(0, 128)).unwrap();
    let mut expected = String::from("Buffer {\n");
    expected.push_str("  0x000000:    48 69 21 00 00 00 00 00  ");
    expected.push_str(&"00 00 00 00 00 00 00 00  ".repeat(3));
    expected.push_str("    Hi...... ");
    expected.push_str(&"........ ".repeat(3));
    expected.push('\n');
    expected.push_str("  0x000020:    00 FF 00 00 00 00 00     .......\n");
    expected.push('}');
    assert_eq!(text, expected);
}

#[test]
fn dump_of_wide_cells_and_a_window() {
    let mut tape: VecBuffer<u16> = VecBuffer::new(100);
    tape.set_value(70, 0x1A2B);
    let text = String::from_utf8(tape.write_buffer(70, 71)).unwrap();
    let mut expected = String::from("Buffer {\n  0x000040:    ");
    expected.push_str("00 00 00 00 00 00 1A2B 00  ");
    expected.push_str(&"00 00 00 00 00 00 00 00  ".repeat(3));
    expected.push_str("    ");
    expected.push_str(&"........ ".repeat(4));
    expected.push_str("\n}");
    assert_eq!(text, expected);
}
