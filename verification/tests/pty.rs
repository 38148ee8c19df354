use lib::fs::error::FsError;
use lib::fs::poll::{POLL_ERROR, POLL_HUP, POLL_RDHUP, POLL_READ, POLL_WRITE};
use lib::fs::pty::{
    translate_slave_output, DevPtsLookup, PtyManager, PtyTermios, IXON, ONLCR, OPOST, TCION,
    TCIOFF, TCOOFF, TCOON, TCSBRK, TCXONC, VSTART, VSTOP,
};

fn termios(c_iflag: u32, c_oflag: u32) -> PtyTermios {
    let mut c_cc = [0u8; 19];
    c_cc[VSTART] = 0x11;
    c_cc[VSTOP] = 0x13;
    PtyTermios { c_iflag, c_oflag, c_cc }
}

#[test]
fn onlcr_inserts_carriage_returns() {
    let t = termios(0, OPOST | ONLCR);
    assert_eq!(translate_slave_output(&t, b"a\nb\n"), b"a\r\nb\r\n".to_vec());
    let raw = termios(0, ONLCR);
    assert_eq!(translate_slave_output(&raw, b"a\nb"), b"a\nb".to_vec());
    assert_eq!(translate_slave_output(&t, b""), Vec::<u8>::new());
}

#[test]
fn numbers_are_handed_out_in_order_and_listed() {
    let mut manager = PtyManager::new();
    let first = manager.allocate_master();
    let second = manager.allocate_master();
    assert_eq!(first.pty_number(), 0);
    assert_eq!(second.pty_number(), 1);
    assert!(first.locked());
    let names: Vec<Vec<u8>> = manager.entries();
    assert_eq!(names, vec![b"ptmx".to_vec(), b"0".to_vec(), b"1".to_vec()]);
    assert_eq!(manager.lookup(b"ptmx"), DevPtsLookup::Ptmx);
    assert_eq!(manager.lookup(b"1"), DevPtsLookup::Slave(1));
    assert_eq!(manager.lookup(b"+1"), DevPtsLookup::Slave(1));
    assert_eq!(manager.lookup(b"7"), DevPtsLookup::Missing);
    assert_eq!(manager.lookup(b"x"), DevPtsLookup::Missing);
    manager.remove_pty(0);
    assert!(!manager.lookup_slave(0));
    assert!(manager.lookup_slave(1));
    assert_eq!(manager.entries(), vec![b"ptmx".to_vec(), b"1".to_vec()]);
}

#[test]
fn slave_output_reaches_the_master_translated() {
    let mut manager = PtyManager::new();
    let mut pty = manager.allocate_master();
    assert_eq!(pty.open_slave_file(), Err(FsError::Io));
    pty.set_locked(false);
    assert_eq!(pty.open_slave_file(), Ok(()));
    assert_eq!(pty.open_slave(), POLL_WRITE | POLL_HUP | POLL_RDHUP);
    let t = termios(0, OPOST | ONLCR);
    let written = pty.slave_write(b"hi\n", &t).unwrap();
    assert_eq!(written.written, 3);
    assert_eq!(written.master_events, POLL_READ);
    assert_eq!(pty.master_poll(POLL_READ | POLL_WRITE), POLL_READ | POLL_WRITE);
    assert_eq!(pty.master_read(2).unwrap(), b"hi".to_vec());
    assert_eq!(pty.master_read(16).unwrap(), b"\r\n".to_vec());
    assert_eq!(pty.master_read(16), Err(FsError::WouldBlock));
    assert_eq!(pty.master_read(0).unwrap(), Vec::<u8>::new());
}

#[test]
fn closing_both_ends_frees_the_pty() {
    let mut manager = PtyManager::new();
    let mut pty = manager.allocate_master();
    pty.set_locked(false);
    pty.open_slave();
    pty.open_slave();
    assert_eq!(pty.close_slave().remove, false);
    let last = pty.close_slave();
    assert_eq!(last.master_events, POLL_WRITE | POLL_ERROR | POLL_HUP | POLL_RDHUP);
    assert!(!last.remove);
    assert_eq!(pty.master_read(4).unwrap(), Vec::<u8>::new());
    assert_eq!(pty.master_write(b"x"), Err(FsError::Io));
    assert_eq!(pty.master_poll(0), POLL_ERROR | POLL_HUP | POLL_RDHUP);
    let release = pty.master_release();
    assert!(release.remove);
}

#[test]
fn master_flow_control() {
    let mut manager = PtyManager::new();
    let mut pty = manager.allocate_master();
    pty.set_locked(false);
    pty.open_slave();
    let t = termios(IXON, 0);
    let off = pty.master_ioctl(TCXONC, TCOOFF as u64, &t).unwrap();
    assert_eq!(off.master_events, POLL_WRITE);
    assert_eq!(pty.master_write(b"x"), Err(FsError::WouldBlock));
    let again = pty.master_tcxonc(TCOOFF, &t).unwrap();
    assert_eq!(again.master_events, 0);
    pty.master_tcxonc(TCOON, &t).unwrap();
    assert_eq!(pty.master_write(b"xy"), Ok(2));
    assert_eq!(pty.master_tcxonc(TCIOFF, &t).unwrap().slave_input, Some(0x13));
    assert_eq!(pty.master_tcxonc(TCION, &t).unwrap().slave_input, Some(0x11));
    assert_eq!(pty.master_tcxonc(9, &t), Err(FsError::InvalidInput));
    assert!(pty.master_ioctl(TCSBRK, 0, &t).is_ok());
    assert_eq!(pty.master_ioctl(0x5401, 0, &t), Err(FsError::Unsupported));
}

#[test]
fn slave_flow_control() {
    let mut manager = PtyManager::new();
    let mut pty = manager.allocate_master();
    let t = termios(IXON, 0);
    let stop = pty.slave_tcxonc(TCOOFF, &t).unwrap();
    assert_eq!(stop.slave_events, POLL_WRITE);
    assert_eq!(pty.slave_write(b"x", &t), Err(FsError::WouldBlock));
    assert_eq!(pty.backend_poll_ready(POLL_WRITE), 0);
    pty.slave_tcxonc(TCOON, &t).unwrap();
    assert_eq!(pty.backend_poll_ready(POLL_WRITE), POLL_WRITE);
    let sent = pty.slave_tcxonc(TCIOFF, &t).unwrap();
    assert_eq!(sent.master_events, POLL_READ);
    assert_eq!(pty.master_read(8), Ok(vec![0x13]));
    assert!(pty.slave_ioctl(0x5401, 0, &t).is_none());
    pty.master_release();
    assert_eq!(pty.slave_write(b"x", &t), Err(FsError::Io));
    assert_eq!(pty.slave_read(Err(FsError::WouldBlock)), Ok(0));
    assert_eq!(pty.slave_poll(POLL_READ, POLL_READ), POLL_READ | POLL_ERROR | POLL_HUP | POLL_RDHUP);
}
