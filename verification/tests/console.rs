use fe_rtos::arch::{frame_len, set_canary, set_initial_stack, Arch, INIT_XPSR, STACK_CANARY};
use fe_rtos::console::{
    decimal, out_of_memory_message, panic_message, print_msg, stack_overflow_message,
    usize_to_chars,
};
use fe_rtos::lookup::position;

fn text(chars: Vec<char>) -> String {
    chars.into_iter().collect()
}

#[test]
fn usize_to_chars_writes_right_aligned_digits() {
    let mut digits: [u8; 20] = [0; 20];
    let start = usize_to_chars(&mut digits, 1234);
    assert_eq!(start, 16);
    assert_eq!(&digits[start..], b"1234");
    assert_eq!(&digits[..start], &[0u8; 16]);
}

#[test]
fn usize_to_chars_of_zero_is_one_digit() {
    let mut digits: [u8; 4] = [b'x'; 4];
    let start = usize_to_chars(&mut digits, 0);
    assert_eq!(start, 3);
    assert_eq!(&digits, b"xxx0");
}

#[test]
fn usize_to_chars_fills_the_slice_exactly() {
    let mut digits: [u8; 3] = [0; 3];
    let start = usize_to_chars(&mut digits, 987);
    assert_eq!(start, 0);
    assert_eq!(&digits, b"987");
}

#[test]
fn usize_to_chars_keeps_the_low_digits_when_short_of_room() {
    let mut digits: [u8; 2] = [0; 2];
    let start = usize_to_chars(&mut digits, 12345);
    assert_eq!(start, 0);
    assert_eq!(&digits, b"45");
    let mut one: [u8; 1] = [0; 1];
    assert_eq!(usize_to_chars(&mut one, 70), 0);
    assert_eq!(&one, b"0");
}

#[test]
fn usize_to_chars_of_the_largest_number() {
    let mut digits: [u8; 20] = [0; 20];
    let start = usize_to_chars(&mut digits, usize::MAX);
    assert_eq!(
        std::str::from_utf8(&digits[start..]).unwrap(),
        format!("{}", usize::MAX)
    );
}

#[test]
fn decimal_matches_the_usual_notation() {
    for n in [0usize, 7, 10, 99, 100, 1536, 65535, 4_000_000_000] {
        assert_eq!(text(decimal(n)), format!("{}", n));
    }
}

#[test]
fn print_msg_sends_every_character_in_order() {
    assert_eq!(print_msg("Hi!\n"), vec!['H', 'i', '!', '\n']);
    assert_eq!(print_msg(""), Vec::<char>::new());
    assert_eq!(print_msg("é√"), vec!['é', '√']);
}

#[test]
fn stack_overflow_message_names_the_task() {
    assert_eq!(text(stack_overflow_message(12)), "Stack overflow in task 12!\n");
    assert_eq!(text(stack_overflow_message(0)), "Stack overflow in task 0!\n");
}

#[test]
fn out_of_memory_message_gives_size_and_alignment() {
    assert_eq!(
        text(out_of_memory_message(4096, 8)),
        "Out of memory!\nSize: 4096 Alignment: 8\n"
    );
}

#[test]
fn panic_message_names_the_process() {
    assert_eq!(text(panic_message(3)), "Oh no! Process 3 has panicked!\n");
}

#[test]
fn canary_goes_into_the_lowest_word() {
    let mut stack = vec![0usize; 8];
    assert_eq!(set_canary(&mut stack), 0);
    assert_eq!(stack, vec![STACK_CANARY, 0, 0, 0, 0, 0, 0, 0]);
}

#[test]
fn arm_frame_is_sixteen_words_on_top() {
    assert_eq!(frame_len(Arch::Arm), 16);
    let mut stack = vec![9usize; 20];
    let sp = set_initial_stack(Arch::Arm, &mut stack, 0xE, 0xA, 0x1D);
    assert_eq!(sp, 4);
    assert_eq!(&stack[..4], &[9, 9, 9, 9]);
    assert_eq!(&stack[4..17], &[0xA; 13]);
    assert_eq!(stack[17], 0x1D);
    assert_eq!(stack[18], 0xE);
    assert_eq!(stack[19], INIT_XPSR);
}

#[test]
fn riscv_frame_is_thirty_two_words_on_top() {
    assert_eq!(frame_len(Arch::Riscv32), 32);
    let mut stack = vec![9usize; 34];
    let sp = set_initial_stack(Arch::Riscv32, &mut stack, 0xE, 0xA, 0x1D);
    assert_eq!(sp, 2);
    assert_eq!(&stack[..2], &[9, 9]);
    let mut frame = [0usize; 32];
    frame[0] = 0xE;
    frame[22] = 0xA;
    frame[30] = 2;
    frame[31] = 0x1D;
    assert_eq!(&stack[2..], &frame);
}

#[test]
fn position_finds_the_first_occurrence() {
    assert_eq!(position(&vec![4, 5, 6, 5], 5), Some(1));
    assert_eq!(position(&vec![4, 5, 6, 5], 7), None);
    assert_eq!(position(&Vec::new(), 7), None);
}
