use os1k::digits::digit_byte;
use os1k::kernel::{init_step, Action, MemoryLayout, Stage};
use os1k::memory::memset;
use os1k::sbi::{putchar, CONSOLE_PUTCHAR_EID, CONSOLE_PUTCHAR_FID};

#[test]
fn putchar_builds_console_call() {
    let c = putchar(b'A');
    assert_eq!(c.arg0, 65);
    assert_eq!((c.arg1, c.arg2, c.arg3, c.arg4, c.arg5), (0, 0, 0, 0, 0));
    assert_eq!(c.fid, 0);
    assert_eq!(c.eid, 1);
    assert_eq!((CONSOLE_PUTCHAR_FID, CONSOLE_PUTCHAR_EID), (0, 1));
    assert_eq!(putchar(0xff).arg0, 255);
}

#[test]
fn memset_zeroes_only_the_range() {
    let mut mem = [7u8; 10];
    memset(&mut mem, 3, 0, 4);
    assert_eq!(mem, [7, 7, 7, 0, 0, 0, 0, 7, 7, 7]);
}

#[test]
fn memset_empty_range_is_noop() {
    let mut mem = [9u8; 4];
    memset(&mut mem, 2, 0, 0);
    assert_eq!(mem, [9u8; 4]);
    memset(&mut mem, 4, 0, 0);
    assert_eq!(mem, [9u8; 4]);
}

#[test]
fn memset_whole_buffer() {
    let mut mem = [1u8, 2, 3];
    memset(&mut mem, 0, 0xaa, 3);
    assert_eq!(mem, [0xaa; 3]);
}

#[test]
fn init_runs_to_idle() {
    let layout = MemoryLayout { bss_start: 0x8000_1000, bss_end: 0x8000_1400, stack_top: 0x8002_0000 };
    let (s, a) = init_step(&layout, Stage::Booting);
    assert!(s == Stage::BssCleared);
    assert!(a == Action::ZeroBss { start: 0x8000_1000, len: 0x400 });
    let (s, a) = init_step(&layout, s);
    assert!(s == Stage::Greeted && a == Action::Greet);
    let (s, a) = init_step(&layout, s);
    assert!(s == Stage::Idle && a == Action::WaitForInterrupt);
    let (s, a) = init_step(&layout, s);
    assert!(s == Stage::Idle && a == Action::WaitForInterrupt);
}

#[test]
fn init_empty_bss() {
    let layout = MemoryLayout { bss_start: 64, bss_end: 64, stack_top: 128 };
    let (_, a) = init_step(&layout, Stage::Booting);
    assert!(a == Action::ZeroBss { start: 64, len: 0 });
}

#[test]
fn digit_bytes() {
    assert_eq!(digit_byte(0), b'0');
    assert_eq!(digit_byte(9), b'9');
    assert_eq!(digit_byte(10), b'a');
    assert_eq!(digit_byte(15), b'f');
}
