use fe_rtos::interrupt::{Dispatch, InterruptTable, HANDLERS, INT_MASK, TIMER_INT};

const DEFAULT: usize = 0xD0;

#[test]
fn every_cause_starts_at_the_default_handler() {
    let table = InterruptTable::new(DEFAULT);
    for cause in 0..HANDLERS {
        assert_eq!(
            table.interrupt_switch(cause),
            Dispatch { handler: DEFAULT, timer: false }
        );
        assert_eq!(
            table.interrupt_switch(INT_MASK | cause),
            Dispatch { handler: DEFAULT, timer: cause == 7 }
        );
    }
}

#[test]
fn interrupts_and_exceptions_have_tables_of_their_own() {
    let mut table = InterruptTable::new(DEFAULT);
    table.int_register(TIMER_INT, 0x71);
    table.int_register(7, 0xE7);
    table.int_register(INT_MASK | 3, 0x33);
    assert_eq!(table.interrupt_switch(TIMER_INT), Dispatch { handler: 0x71, timer: true });
    assert_eq!(table.interrupt_switch(7), Dispatch { handler: 0xE7, timer: false });
    assert_eq!(table.interrupt_switch(INT_MASK | 3), Dispatch { handler: 0x33, timer: false });
    assert_eq!(table.interrupt_switch(3), Dispatch { handler: DEFAULT, timer: false });
}

#[test]
fn causes_beyond_the_tables_are_told_apart() {
    assert!(InterruptTable::in_range(15));
    assert!(InterruptTable::in_range(INT_MASK | 15));
    assert!(!InterruptTable::in_range(16));
    assert!(!InterruptTable::in_range(INT_MASK | 16));
}
