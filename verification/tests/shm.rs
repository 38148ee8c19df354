use lib::credentials::Credentials;
use lib::errno::SysErr;
use lib::fs::shm::{
    build_segment, page_align_up, shmid_ds_to_bytes, ShmAttachRequest, ShmGet, SysvShmAttachment,
    SysvShmRegistry, IPC_CREAT, IPC_EXCL, IPC_PRIVATE, IPC_RMID, IPC_SET, IPC_STAT, MAP_FIXED,
    MAP_FIXED_NOREPLACE, MAP_SHARED, PROT_EXEC, PROT_READ, PROT_WRITE, SHM_EXEC, SHM_RDONLY,
    SHM_REMAP, SHM_RND,
};

fn creds() -> Credentials {
    let mut c = Credentials::root();
    c.uid = 1000;
    c.gid = 100;
    c
}

/// Creates a segment for `key` the way `shmget` asks, backed by a file named by its ID.
fn create(reg: &mut SysvShmRegistry<u32>, key: i32, size: usize, flags: i32) -> i32 {
    match reg.shmget(key, size, flags) {
        Ok(ShmGet::Create { shmid, size }) => {
            let seg = build_segment(shmid, key, size, flags, &creds(), 7, 1000, shmid as u32);
            reg.insert_segment(seg);
            shmid
        }
        other => panic!("expected a new segment, got {:?}", other),
    }
}

#[test]
fn page_align_up_rounds_to_pages() {
    assert_eq!(page_align_up(0), Some(0));
    assert_eq!(page_align_up(1), Some(4096));
    assert_eq!(page_align_up(4096), Some(4096));
    assert_eq!(page_align_up(4097), Some(8192));
    assert_eq!(page_align_up(usize::MAX - 4095), Some(usize::MAX - 4095));
    assert_eq!(page_align_up(usize::MAX), None);
}

#[test]
fn shmget_errors() {
    let mut reg: SysvShmRegistry<u32> = SysvShmRegistry::new();
    assert_eq!(reg.shmget(5, 0, IPC_CREAT), Err(SysErr::Inval));
    assert_eq!(reg.shmget(5, usize::MAX, IPC_CREAT), Err(SysErr::Inval));
    assert_eq!(reg.shmget(5, 100, 0), Err(SysErr::NoEnt));
}

#[test]
fn shmget_private_always_creates() {
    let mut reg: SysvShmRegistry<u32> = SysvShmRegistry::new();
    assert_eq!(
        reg.shmget(IPC_PRIVATE, 100, 0),
        Ok(ShmGet::Create { shmid: 1, size: 4096 })
    );
    assert_eq!(
        reg.shmget(IPC_PRIVATE, 5000, 0),
        Ok(ShmGet::Create { shmid: 2, size: 8192 })
    );
}

#[test]
fn shmget_finds_live_segment_by_key() {
    let mut reg: SysvShmRegistry<u32> = SysvShmRegistry::new();
    let id = create(&mut reg, 42, 5000, IPC_CREAT | 0o640);
    assert_eq!(reg.shmget(42, 100, 0), Ok(ShmGet::Existing(id)));
    assert_eq!(reg.shmget(42, 8192, IPC_CREAT), Ok(ShmGet::Existing(id)));
    assert_eq!(reg.shmget(42, 8193, 0), Err(SysErr::Inval));
    assert_eq!(reg.shmget(42, 100, IPC_CREAT | IPC_EXCL), Err(SysErr::Exists));
    let seg = reg.segment(id).unwrap();
    assert_eq!(seg.size, 8192);
    assert_eq!(seg.mode, 0o640);
    assert_eq!(seg.uid, 1000);
    assert_eq!(seg.cgid, 100);
    assert_eq!(seg.cpid, 7);
    assert_eq!(seg.ctime, 1000);
    assert_eq!(seg.nattch, 0);
    assert_eq!(seg.file, id as u32);
}

#[test]
fn removed_segment_is_not_found_by_key() {
    let mut reg: SysvShmRegistry<u32> = SysvShmRegistry::new();
    let id = create(&mut reg, 9, 100, IPC_CREAT);
    reg.record_attach(1, id, 0x4000_0000, 4096, 3, 10).unwrap();
    assert_eq!(reg.shmctl(id, IPC_RMID, 0, 20), Ok(None));
    let seg = reg.segment(id).unwrap();
    assert!(seg.marked_destroy);
    assert_eq!(seg.ctime, 20);
    // The key is free again: a new segment is made.
    let again = create(&mut reg, 9, 100, IPC_CREAT);
    assert_ne!(again, id);
    assert_eq!(reg.shmget(9, 100, 0), Ok(ShmGet::Existing(again)));
}

#[test]
fn shmat_request_checks_address_and_sets_flags() {
    let mut reg: SysvShmRegistry<u32> = SysvShmRegistry::new();
    let id = create(&mut reg, IPC_PRIVATE, 4096, 0);
    assert_eq!(reg.shmat_request(id + 1, 0, 0), Err(SysErr::Inval));
    assert_eq!(reg.shmat_request(id, 0x1001, 0), Err(SysErr::Inval));
    assert_eq!(
        reg.shmat_request(id, 0, 0),
        Ok(ShmAttachRequest {
            shmid: id,
            address: 0,
            length: 4096,
            prot: PROT_READ | PROT_WRITE,
            flags: MAP_SHARED,
        })
    );
    assert_eq!(
        reg.shmat_request(id, 0x1fff, SHM_RND | SHM_RDONLY),
        Ok(ShmAttachRequest {
            shmid: id,
            address: 0x1000,
            length: 4096,
            prot: PROT_READ,
            flags: MAP_SHARED | MAP_FIXED_NOREPLACE,
        })
    );
    assert_eq!(
        reg.shmat_request(id, 0x2000, SHM_REMAP | SHM_EXEC),
        Ok(ShmAttachRequest {
            shmid: id,
            address: 0x2000,
            length: 4096,
            prot: PROT_READ | PROT_WRITE | PROT_EXEC,
            flags: MAP_SHARED | MAP_FIXED,
        })
    );
    // Rounding down to page 0 means "anywhere".
    assert_eq!(reg.shmat_request(id, 0x10, SHM_RND).unwrap().flags, MAP_SHARED);
}

#[test]
fn attach_and_detach_count_attachments() {
    let mut reg: SysvShmRegistry<u32> = SysvShmRegistry::new();
    let id = create(&mut reg, IPC_PRIVATE, 4096, 0);
    assert_eq!(reg.record_attach(5, id, 0x7000_0000, 4096, 11, 50), Ok(0x7000_0000));
    assert_eq!(reg.record_attach(5, id + 9, 0x7100_0000, 4096, 11, 50), Err(SysErr::Inval));
    let seg = reg.segment(id).unwrap();
    assert_eq!((seg.nattch, seg.atime, seg.lpid), (1, 50, 11));
    assert_eq!(reg.find_attachment(5, 0), Err(SysErr::Inval));
    assert_eq!(reg.find_attachment(5, 0x7100_0000), Err(SysErr::Inval));
    assert_eq!(reg.find_attachment(6, 0x7000_0000), Err(SysErr::Inval));
    let a = reg.find_attachment(5, 0x7000_0000).unwrap();
    assert_eq!(a, SysvShmAttachment { shmid: id, address: 0x7000_0000, size: 4096 });
    reg.record_detach(5, a, 12, 60);
    let seg = reg.segment(id).unwrap();
    assert_eq!((seg.nattch, seg.dtime, seg.lpid), (0, 60, 12));
    assert_eq!(reg.find_attachment(5, 0x7000_0000), Err(SysErr::Inval));
}

#[test]
fn removed_segment_goes_with_its_last_detach() {
    let mut reg: SysvShmRegistry<u32> = SysvShmRegistry::new();
    let id = create(&mut reg, IPC_PRIVATE, 4096, 0);
    reg.record_attach(1, id, 0x1000, 4096, 2, 3).unwrap();
    reg.record_attach(1, id, 0x3000, 4096, 2, 3).unwrap();
    reg.shmctl(id, IPC_RMID, 0, 4).unwrap();
    let a = reg.find_attachment(1, 0x1000).unwrap();
    reg.record_detach(1, a, 2, 5);
    assert_eq!(reg.segment(id).unwrap().nattch, 1);
    let b = reg.find_attachment(1, 0x3000).unwrap();
    reg.record_detach(1, b, 2, 6);
    assert!(reg.segment(id).is_none());
}

#[test]
fn rmid_without_attachments_removes_at_once() {
    let mut reg: SysvShmRegistry<u32> = SysvShmRegistry::new();
    let id = create(&mut reg, IPC_PRIVATE, 4096, 0);
    assert_eq!(reg.shmctl(id, IPC_RMID, 0, 1), Ok(None));
    assert!(reg.segment(id).is_none());
    assert_eq!(reg.shmctl(id, IPC_RMID, 0, 1), Err(SysErr::Inval));
}

#[test]
fn shmctl_stat_and_unknown_commands() {
    let mut reg: SysvShmRegistry<u32> = SysvShmRegistry::new();
    let id = create(&mut reg, 77, 4096, IPC_CREAT | 0o600);
    assert_eq!(reg.shmctl(id, IPC_STAT, 0, 1), Err(SysErr::Fault));
    assert_eq!(reg.shmctl(id + 1, IPC_STAT, 0x1000, 1), Err(SysErr::Inval));
    assert_eq!(reg.shmctl(id, IPC_SET, 0x1000, 1), Err(SysErr::NoSys));
    assert_eq!(reg.shmctl(id, 99, 0x1000, 1), Err(SysErr::NoSys));
    let bytes = reg.shmctl(id, IPC_STAT, 0x1000, 1).unwrap().unwrap();
    assert_eq!(bytes.len(), 112);
    assert_eq!(&bytes[0..4], &77i32.to_le_bytes());
    assert_eq!(&bytes[4..8], &1000u32.to_le_bytes());
    assert_eq!(&bytes[20..24], &0o600u32.to_le_bytes());
    assert_eq!(&bytes[44..52], &4096u64.to_le_bytes());
    assert_eq!(&bytes[68..76], &1000i64.to_le_bytes());
    assert_eq!(&bytes[76..80], &7i32.to_le_bytes());
    assert_eq!(&bytes[108..112], &[0, 0, 0, 0]);
    assert_eq!(bytes, shmid_ds_to_bytes(reg.segment(id).unwrap()));
}

#[test]
fn clone_copies_attachments_and_unregister_detaches() {
    let mut reg: SysvShmRegistry<u32> = SysvShmRegistry::new();
    let id = create(&mut reg, IPC_PRIVATE, 4096, 0);
    reg.register_process(1);
    reg.record_attach(1, id, 0x5000, 4096, 2, 3).unwrap();
    reg.clone_process(1, 2, false);
    assert_eq!(reg.segment(id).unwrap().nattch, 2);
    assert!(reg.find_attachment(2, 0x5000).is_ok());
    // A thread shares the address space: one more owner, no new attachments.
    reg.clone_process(2, 99, true);
    assert_eq!(reg.segment(id).unwrap().nattch, 2);
    reg.unregister_process(2, 4, 9);
    assert_eq!(reg.segment(id).unwrap().nattch, 2);
    reg.unregister_process(2, 4, 9);
    let seg = reg.segment(id).unwrap();
    assert_eq!((seg.nattch, seg.dtime, seg.lpid), (1, 9, 4));
    assert_eq!(reg.find_attachment(2, 0x5000), Err(SysErr::Inval));
    // Unknown address spaces are left alone.
    reg.unregister_process(42, 4, 9);
    assert_eq!(reg.segment(id).unwrap().nattch, 1);
}

#[test]
fn exec_moves_the_process_to_its_new_address_space() {
    let mut reg: SysvShmRegistry<u32> = SysvShmRegistry::new();
    let id = create(&mut reg, IPC_PRIVATE, 4096, 0);
    reg.register_process(1);
    reg.record_attach(1, id, 0x5000, 4096, 2, 3).unwrap();
    assert_eq!(reg.segment(id).unwrap().nattch, 1);
    reg.replace_process(1, 7, 2, 11);
    let seg = reg.segment(id).unwrap();
    assert_eq!((seg.nattch, seg.dtime, seg.lpid), (0, 11, 2));
    assert_eq!(reg.find_attachment(1, 0x5000), Err(SysErr::Inval));
    assert_eq!(reg.find_attachment(7, 0x5000), Err(SysErr::Inval));
    // The same address space: one owner more, then one fewer.
    reg.record_attach(7, id, 0x6000, 4096, 2, 12).unwrap();
    reg.replace_process(7, 7, 2, 13);
    assert!(reg.find_attachment(7, 0x6000).is_ok());
}
