use mini_greeter::terminal::{echo_warning, set_echo, NoEchoGuard};

const ECHO: u32 = libc::ECHO;

#[test]
fn echo_alone_is_changed() {
    let flags = libc::ICANON | libc::ISIG;
    assert_eq!(set_echo(Some(flags), ECHO, true), Ok(flags | ECHO));
    assert_eq!(set_echo(Some(flags | ECHO), ECHO, false), Ok(flags));
    assert_eq!(set_echo(Some(flags), ECHO, false), Ok(flags));
    assert_eq!(set_echo(Some(u32::MAX), ECHO, false), Ok(u32::MAX - 8));
}

#[test]
fn unreadable_flags_give_a_warning() {
    let text = "warning: tcgetattr failed, could not read terminal attributes";
    assert_eq!(set_echo(None, ECHO, true), Err(text.to_string()));
    assert_eq!(set_echo(None, ECHO, false), Err(text.to_string()));
}

#[test]
fn flags_that_cannot_be_applied_give_a_warning() {
    let text = "warning: tcsetattr failed, could not restore terminal echo";
    assert_eq!(echo_warning(true), text);
    let text = "warning: tcsetattr failed, could not disable terminal echo";
    assert_eq!(echo_warning(false), text);
}

#[test]
fn the_guard_restores_echo() {
    let before = libc::ICANON | ECHO;
    let (guard, off) = NoEchoGuard::new(Some(before), ECHO);
    assert_eq!(off, Ok(libc::ICANON));
    assert_eq!(guard.release(off.ok()), Ok(before));
}

#[test]
fn the_guard_leaves_echo_on_even_if_it_was_off() {
    let (guard, off) = NoEchoGuard::new(Some(libc::ISIG), ECHO);
    assert_eq!(off, Ok(libc::ISIG));
    assert_eq!(guard.release(off.ok()), Ok(libc::ISIG | ECHO));
    let (guard, off) = NoEchoGuard::new(None, ECHO);
    assert!(off.is_err());
    assert_eq!(guard.release(Some(0)), Ok(ECHO));
}
