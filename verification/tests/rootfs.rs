use lib::errno::SysErr;
use lib::rootfs::filesystem::{BindFs, ExtFileSystem, ExtStat, TmpFs, EXT_SUPER_MAGIC, TMPFS_MAGIC};
use lib::rootfs::namespace::{path_matches, MountNamespace};
use lib::rootfs::{exec_format, ExecFormat};

#[test]
fn exec_format_from_magic() {
    assert_eq!(exec_format(b"\x7fELF\x02\x01"), ExecFormat::Elf);
    assert_eq!(exec_format(b"\x7fEL"), ExecFormat::Flat);
    assert_eq!(exec_format(b"#!/bin/sh\n"), ExecFormat::Flat);
    assert_eq!(exec_format(b""), ExecFormat::Flat);
}

#[test]
fn filesystem_types() {
    assert_eq!(TmpFs.fstype(), "tmpfs");
    assert_eq!(TmpFs.magic(), TMPFS_MAGIC);
    let st = TmpFs.mount_statfs();
    assert_eq!((st.f_type, st.f_bsize, st.f_namelen, st.f_blocks), (TMPFS_MAGIC, 4096, 255, 0));
    assert_eq!(BindFs.fstype(), "bind");
    assert_eq!(BindFs.magic(), 0);
    assert_eq!(BindFs.mount(), Err(SysErr::Inval));
    let ext = ExtFileSystem::new("ext4");
    assert_eq!(ext.fstype(), "ext4");
    assert_eq!(ext.magic(), EXT_SUPER_MAGIC);
    assert_eq!(ext.check_source(false), Err(SysErr::Inval));
    assert_eq!(ext.check_source(true), Ok(()));
    let st = ext.mount_statfs(ExtStat {
        block_size: 1024,
        blocks: 100,
        free_blocks: 40,
        files: 64,
        free_inodes: 10,
        name_len: 255,
    });
    assert_eq!(st.f_type, 0xEF53);
    assert_eq!((st.f_bsize, st.f_frsize, st.f_blocks), (1024, 1024, 100));
    assert_eq!((st.f_bfree, st.f_bavail, st.f_files, st.f_ffree), (40, 40, 64, 10));
}

#[test]
fn mount_paths_cover_their_subtrees() {
    assert!(path_matches(b"/mnt", b"/mnt"));
    assert!(path_matches(b"/mnt/a", b"/mnt"));
    assert!(!path_matches(b"/mntx", b"/mnt"));
    assert!(!path_matches(b"/mn", b"/mnt"));
}

#[test]
fn mounts_stack_and_unmount() {
    let mut ns: MountNamespace<u32> = MountNamespace::new(1);
    assert_eq!(*ns.root_mount(), 1);
    assert_eq!(ns.lookup_mount(b"/mnt"), None);
    ns.mount(b"/mnt", 10).unwrap();
    ns.mount(b"/mnt", 11).unwrap();
    assert_eq!(ns.lookup_mount(b"/mnt"), Some(&11));
    ns.unmount(b"/mnt").unwrap();
    assert_eq!(ns.lookup_mount(b"/mnt"), Some(&10));
    ns.unmount(b"/mnt").unwrap();
    assert_eq!(ns.lookup_mount(b"/mnt"), None);
    assert_eq!(ns.unmount(b"/mnt"), Err(SysErr::Inval));
    assert_eq!(ns.unmount(b"/"), Err(SysErr::Inval));
    ns.mount(b"/", 2).unwrap();
    assert_eq!(ns.lookup_mount(b"/"), Some(&2));
    ns.unmount(b"/").unwrap();
    assert_eq!(*ns.root_mount(), 1);
}

#[test]
fn covering_mount_is_the_longest_prefix() {
    let mut ns: MountNamespace<u32> = MountNamespace::new(1);
    ns.mount(b"/mnt", 10).unwrap();
    ns.mount(b"/mnt/usb", 20).unwrap();
    ns.mount(b"/mntx", 30).unwrap();
    assert_eq!(*ns.covering_mount(b"/mnt/usb/file"), 20);
    assert_eq!(*ns.covering_mount(b"/mnt/usb"), 20);
    assert_eq!(*ns.covering_mount(b"/mnt/other"), 10);
    assert_eq!(*ns.covering_mount(b"/mntx/a"), 30);
    assert_eq!(*ns.covering_mount(b"/home"), 1);
}

#[test]
fn move_mount_carries_the_subtree() {
    let mut ns: MountNamespace<u32> = MountNamespace::new(1);
    ns.mount(b"/old", 10).unwrap();
    ns.mount(b"/old/sub", 11).unwrap();
    ns.mount(b"/new/sub", 99).unwrap();
    ns.move_mount(b"/old", b"/new").unwrap();
    assert_eq!(ns.lookup_mount(b"/old"), None);
    assert_eq!(ns.lookup_mount(b"/old/sub"), None);
    assert_eq!(ns.lookup_mount(b"/new"), Some(&10));
    assert_eq!(ns.lookup_mount(b"/new/sub"), Some(&11));
    assert_eq!(ns.move_mount(b"/nothing", b"/x"), Err(SysErr::Inval));
}

#[test]
fn move_mount_to_and_from_root() {
    let mut ns: MountNamespace<u32> = MountNamespace::new(1);
    ns.mount(b"/newroot", 5).unwrap();
    ns.mount(b"/newroot/proc", 6).unwrap();
    ns.move_mount(b"/newroot", b"/").unwrap();
    assert_eq!(*ns.root_mount(), 5);
    assert_eq!(ns.lookup_mount(b"/proc"), Some(&6));
    assert_eq!(ns.lookup_mount(b"/newroot"), None);
    ns.move_mount(b"/", b"/oldroot").unwrap();
    assert_eq!(ns.lookup_mount(b"/oldroot"), Some(&5));
    assert_eq!(*ns.root_mount(), 5);
}
