use rustfs::vfs::{FIRST_FD, LAST_FD};
use rustfs::{Directory, File, FileFlags, FsError, Vfs, Whence};
use rustfs::Whence::SeekSet;

fn rand_array(size: usize) -> Vec<u8> {
    let mut state: u64 = 0x9e37_79b9_7f4a_7c15;
    (0..size)
        .map(|_| {
            state = state.wrapping_mul(6364136223846793005).wrapping_add(1442695040888963407);
            (state >> 56) as u8
        })
        .collect()
}

fn assert_eq_buf(first: &[u8], second: &[u8]) {
    assert_eq!(first.len(), second.len());

    for i in 0..first.len() {
        assert_eq!(first[i], second[i]);
    }
}

#[test]
fn test_rename_simple() {
    const SIZE: usize = 4096 * 8 + 3434;
    let mut p = Vfs::new();
    let data = rand_array(SIZE);
    let filename = "first_file";
    let newname = "new_file";

    let fd = p.open(filename, FileFlags::O_RDWR | FileFlags::O_CREAT).expect("open failed!");

    p.write(fd, &data).unwrap();
    p.seek(fd, 0, SeekSet).unwrap();
    assert!(p.rename(filename, newname).is_ok());

    p.close(fd);
    let ret = p.open(filename, FileFlags::O_RDWR);
    assert!(ret.is_err());
}

#[test]
fn test_rename_old_nonexistent() {
    let mut p = Vfs::new();
    let filename = "first_file";
    let newname = "new_file";

    let ret = p.rename(filename, newname);
    assert!(ret.is_err());
}

#[test]
fn test_inode_stat_time() {
    const SIZE: usize = 4096 * 8 + 3434;
    let mut p = Vfs::new();
    let data = rand_array(SIZE);
    let mut buf = [0u8; SIZE];
    let filename = "first_file";

    let fd = p.open(filename, FileFlags::O_RDWR | FileFlags::O_CREAT).expect("open failed!");

    let (ctime, atime, mtime) = p.get_stats(fd).unwrap();
    // All three timestamps should be equal after creation.
    assert_eq!((ctime, atime), (atime, mtime));

    p.write(fd, &data).unwrap();
    p.seek(fd, 0, SeekSet).unwrap();
    p.read(fd, &mut buf).unwrap();

    let (ctime, atime, mtime) = p.get_stats(fd).unwrap();
    assert_ne!((ctime, atime), (atime, mtime));
}

#[test]
fn simple_test() {
    const SIZE: usize = 4096 * 8 + 3434;
    let mut p = Vfs::new();
    let data = rand_array(SIZE);
    let mut buf = [0u8; SIZE];
    let filename = "first_file";

    let fd = p.open(filename, FileFlags::O_RDWR | FileFlags::O_CREAT).expect("open failed!");
    p.write(fd, &data).unwrap();
    p.seek(fd, 0, SeekSet).unwrap();
    p.read(fd, &mut buf).unwrap();

    assert_eq_buf(&data, &buf);

    let fd2 = p.open(filename, FileFlags::O_RDWR).expect("open failed!");
    let mut buf2 = [0u8; SIZE];
    p.read(fd2, &mut buf2).unwrap();

    assert_eq_buf(&data, &buf2);

    p.close(fd);
    p.close(fd2);

    let fd3 = p.open(filename, FileFlags::O_RDWR).expect("open failed!");
    let mut buf3 = [0u8; SIZE];
    p.read(fd3, &mut buf3).unwrap();

    assert_eq_buf(&data, &buf3);
    p.close(fd3);

    p.unlink(filename);

    let fd4 = p.open(filename, FileFlags::O_RDWR);
    assert!(fd4.is_err());
}

#[test]
fn close_and_unlink_free_inode() {
    const SIZE: usize = 4096 * 3 + 3498;
    let mut p = Vfs::new();
    let data = rand_array(SIZE);
    let mut buf = [0u8; SIZE];
    let filename = "first_file";

    let fd = p.open(filename, FileFlags::O_RDWR | FileFlags::O_CREAT).expect("open failed!");
    p.write(fd, &data).unwrap();
    p.seek(fd, 0, SeekSet).unwrap();
    p.read(fd, &mut buf).unwrap();

    assert_eq_buf(&data, &buf);

    let id = p.inode_of(fd).unwrap();
    // close + unlink remove both references to the inode, which frees it.
    p.close(fd);
    assert!(p.is_live(id));
    p.unlink(filename);
    assert!(!p.is_live(id));
}

#[test]
fn write_then_read_round_trip_at_offset() {
    let mut p = Vfs::new();
    let fd = p.open("f", FileFlags::O_CREAT | FileFlags::O_RDWR).unwrap();
    let data = rand_array(777);
    assert_eq!(p.seek(fd, 1000, Whence::SeekSet), Ok(1000));
    assert_eq!(p.write(fd, &data), Ok(777));
    assert_eq!(p.seek(fd, 1000, Whence::SeekSet), Ok(1000));
    let mut buf = vec![0u8; 777];
    assert_eq!(p.read(fd, &mut buf), Ok(777));
    assert_eq!(buf, data);
    // The gap before the write reads as zeros.
    assert_eq!(p.seek(fd, 0, Whence::SeekSet), Ok(0));
    let mut gap = vec![1u8; 1000];
    assert_eq!(p.read(fd, &mut gap), Ok(1000));
    assert!(gap.iter().all(|b| *b == 0));
}

#[test]
fn cursors_are_independent() {
    let mut p = Vfs::new();
    let a = p.open("shared", FileFlags::O_CREAT | FileFlags::O_RDWR).unwrap();
    let b = p.open("shared", FileFlags::O_RDWR).unwrap();
    assert_ne!(a, b);
    assert_eq!(p.write(a, &[1, 2, 3, 4]), Ok(4));
    // b's cursor is still at the start and sees a's bytes.
    let mut buf = [0u8; 2];
    assert_eq!(p.read(b, &mut buf), Ok(2));
    assert_eq!(buf, [1, 2]);
    // a's cursor is at 4, b's at 2.
    assert_eq!(p.seek(a, 0, Whence::SeekCur), Ok(4));
    assert_eq!(p.seek(b, 0, Whence::SeekCur), Ok(2));
    assert_eq!(p.write(b, &[9]), Ok(1));
    assert_eq!(p.seek(a, -2, Whence::SeekCur), Ok(2));
    let mut one = [0u8; 1];
    assert_eq!(p.read(a, &mut one), Ok(1));
    assert_eq!(one, [9]);
}

#[test]
fn unlink_while_open_keeps_data() {
    let mut p = Vfs::new();
    let fd = p.open("tmp", FileFlags::O_CREAT | FileFlags::O_RDWR).unwrap();
    p.write(fd, b"hello").unwrap();
    let id = p.inode_of(fd).unwrap();
    p.unlink("tmp");
    assert!(p.is_live(id));
    assert_eq!(p.open("tmp", FileFlags::O_RDWR), Err(FsError::NotFound));
    p.write(fd, b" world").unwrap();
    p.seek(fd, 0, Whence::SeekSet).unwrap();
    let mut buf = [0u8; 11];
    assert_eq!(p.read(fd, &mut buf), Ok(11));
    assert_eq!(&buf, b"hello world");
    p.close(fd);
    assert!(!p.is_live(id));
}

#[test]
fn closed_descriptor_is_reused_fresh() {
    let mut p = Vfs::new();
    let fd = p.open("x", FileFlags::O_CREAT | FileFlags::O_RDWR).unwrap();
    assert_eq!(fd, FIRST_FD);
    p.write(fd, &[1, 2, 3]).unwrap();
    p.close(fd);
    assert_eq!(p.read(fd, &mut [0u8; 1]), Err(FsError::NotFound));
    let again = p.open("x", FileFlags::O_RDWR).unwrap();
    assert_eq!(again, fd);
    assert_eq!(p.seek(again, 0, Whence::SeekCur), Ok(0));
    let mut buf = [0u8; 3];
    assert_eq!(p.read(again, &mut buf), Ok(3));
    assert_eq!(buf, [1, 2, 3]);
}

#[test]
fn double_close_is_a_no_op() {
    let mut p = Vfs::new();
    let fd = p.open("x", FileFlags::O_CREAT).unwrap();
    p.close(fd);
    p.close(fd);
    let a = p.open("x", FileFlags::O_RDWR).unwrap();
    let b = p.open("x", FileFlags::O_RDWR).unwrap();
    assert_ne!(a, b);
}

#[test]
fn rename_moves_content() {
    let mut p = Vfs::new();
    let fd = p.open("old", FileFlags::O_CREAT | FileFlags::O_RDWR).unwrap();
    p.write(fd, b"content").unwrap();
    p.close(fd);
    assert_eq!(p.rename("old", "new"), Ok(()));
    assert_eq!(p.open("old", FileFlags::O_RDWR), Err(FsError::NotFound));
    let fd = p.open("new", FileFlags::O_RDWR).unwrap();
    let mut buf = [0u8; 7];
    assert_eq!(p.read(fd, &mut buf), Ok(7));
    assert_eq!(&buf, b"content");
}

#[test]
fn rename_over_existing_frees_replaced_file() {
    let mut p = Vfs::new();
    let a = p.open("a", FileFlags::O_CREAT | FileFlags::O_RDWR).unwrap();
    let b = p.open("b", FileFlags::O_CREAT | FileFlags::O_RDWR).unwrap();
    p.write(a, b"aaa").unwrap();
    p.write(b, b"bb").unwrap();
    let ia = p.inode_of(a).unwrap();
    let ib = p.inode_of(b).unwrap();
    p.close(a);
    p.close(b);
    assert_eq!(p.rename("a", "b"), Ok(()));
    assert!(p.is_live(ia));
    assert!(!p.is_live(ib));
    let fd = p.open("b", FileFlags::O_RDWR).unwrap();
    let mut buf = [0u8; 3];
    assert_eq!(p.read(fd, &mut buf), Ok(3));
    assert_eq!(&buf, b"aaa");
}

#[test]
fn rename_to_itself_keeps_file() {
    let mut p = Vfs::new();
    let fd = p.open("same", FileFlags::O_CREAT).unwrap();
    p.close(fd);
    assert_eq!(p.rename("same", "same"), Ok(()));
    assert!(p.open("same", FileFlags::O_RDONLY).is_ok());
}

#[test]
fn rename_missing_is_not_found() {
    let mut p = Vfs::new();
    assert_eq!(p.rename("nope", "other"), Err(FsError::NotFound));
}

#[test]
fn open_missing_without_create_is_not_found() {
    let mut p = Vfs::new();
    assert_eq!(p.open("missing", FileFlags::O_RDWR), Err(FsError::NotFound));
}

#[test]
fn descriptor_pool_exhaustion_is_reported() {
    let mut p = Vfs::new();
    let mut fds = Vec::new();
    for _ in 0..(LAST_FD - FIRST_FD + 1) {
        fds.push(p.open("f", FileFlags::O_CREAT | FileFlags::O_RDWR).unwrap());
    }
    assert_eq!(fds.len(), 254);
    assert_eq!(*fds.last().unwrap(), LAST_FD);
    assert_eq!(p.open("f", FileFlags::O_RDWR), Err(FsError::NoDescriptors));
    assert_eq!(p.open("g", FileFlags::O_CREAT), Err(FsError::NoDescriptors));
    // The failed create left no name behind.
    p.close(fds[10]);
    assert_eq!(p.open("g", FileFlags::O_RDWR), Err(FsError::NotFound));
    assert_eq!(p.open("f", FileFlags::O_RDWR), Ok(fds[10]));
}

#[test]
fn unknown_descriptor_is_not_found() {
    let mut p = Vfs::new();
    let mut buf = [0u8; 1];
    assert_eq!(p.read(5, &mut buf), Err(FsError::NotFound));
    assert_eq!(p.write(-1, &[1]), Err(FsError::NotFound));
    assert_eq!(p.seek(1000, 0, Whence::SeekSet), Err(FsError::NotFound));
    assert_eq!(p.get_stats(0), Err(FsError::NotFound));
}

#[test]
fn seek_variants_and_errors() {
    let mut p = Vfs::new();
    let fd = p.open("s", FileFlags::O_CREAT | FileFlags::O_RDWR).unwrap();
    p.write(fd, &[0u8; 10]).unwrap();
    assert_eq!(p.seek(fd, -3, Whence::SeekEnd), Ok(7));
    assert_eq!(p.seek(fd, 2, Whence::SeekCur), Ok(9));
    assert_eq!(p.seek(fd, 4, Whence::SeekSet), Ok(4));
    assert_eq!(p.seek(fd, -5, Whence::SeekCur), Err(FsError::InvalidArgument));
    assert_eq!(p.seek(fd, -11, Whence::SeekEnd), Err(FsError::InvalidArgument));
    assert_eq!(p.seek(fd, isize::MIN, Whence::SeekSet), Err(FsError::InvalidArgument));
    // A failed seek leaves the cursor alone.
    assert_eq!(p.seek(fd, 0, Whence::SeekCur), Ok(4));
    assert_eq!(p.seek(fd, 5, Whence::SeekEnd), Ok(15));
}

#[test]
fn read_past_end_fails_and_keeps_cursor() {
    let mut p = Vfs::new();
    let fd = p.open("r", FileFlags::O_CREAT | FileFlags::O_RDWR).unwrap();
    p.write(fd, &[1, 2, 3]).unwrap();
    p.seek(fd, 1, Whence::SeekSet).unwrap();
    let mut buf = [7u8; 3];
    assert_eq!(p.read(fd, &mut buf), Err(FsError::OutOfBounds));
    assert_eq!(buf, [7, 7, 7]);
    assert_eq!(p.seek(fd, 0, Whence::SeekCur), Ok(1));
}

#[test]
fn write_at_huge_cursor_is_invalid() {
    let mut p = Vfs::new();
    let fd = p.open("h", FileFlags::O_CREAT | FileFlags::O_RDWR).unwrap();
    assert_eq!(p.seek(fd, isize::MAX, Whence::SeekSet), Ok(isize::MAX as usize));
    assert_eq!(p.seek(fd, isize::MAX, Whence::SeekCur), Ok(usize::MAX - 1));
    assert_eq!(p.write(fd, &[1, 2]), Err(FsError::InvalidArgument));
    assert_eq!(p.seek(fd, 1, Whence::SeekCur), Ok(usize::MAX));
    assert_eq!(p.seek(fd, 1, Whence::SeekCur), Err(FsError::InvalidArgument));
}

#[test]
fn chdir_is_unsupported() {
    let mut p = Vfs::new();
    assert_eq!(p.chdir("dir"), Err(FsError::InvalidArgument));
}

#[test]
fn write_advances_times_after_creation() {
    let mut p = Vfs::new();
    let fd = p.open("t", FileFlags::O_CREAT | FileFlags::O_RDWR).unwrap();
    let (c0, a0, m0) = p.get_stats(fd).unwrap();
    assert_eq!(c0, a0);
    assert_eq!(a0, m0);
    let start = time::get_time();
    while time::get_time() == start {}
    p.write(fd, &[1]).unwrap();
    let (c1, a1, m1) = p.get_stats(fd).unwrap();
    assert_eq!(c1, c0);
    assert_eq!(a1, m1);
    assert!((c1.sec, c1.nsec) < (m1.sec, m1.nsec));
}

#[test]
fn scenario_random_bytes_then_unlink() {
    let mut p = Vfs::new();
    let data = rand_array(10000);
    let fd = p.open("a", FileFlags::O_CREAT | FileFlags::O_RDWR).unwrap();
    assert_eq!(p.write(fd, &data), Ok(10000));
    assert_eq!(p.seek(fd, 0, Whence::SeekSet), Ok(0));
    let mut buf = vec![0u8; 10000];
    assert_eq!(p.read(fd, &mut buf), Ok(10000));
    assert_eq!(buf, data);
    p.unlink("a");
    assert_eq!(p.open("a", FileFlags::O_RDWR), Err(FsError::NotFound));
}

#[test]
fn directory_entries_bind_replace_and_remove() {
    let mut d = Directory::new();
    let name = String::from("sub");
    assert!(d.get(&name).is_none());
    d.insert(name.clone(), File::new_dir(None));
    assert!(matches!(d.get(&name), Some(File::Directory(_))));
    d.insert(name.clone(), File::new_data_file(4));
    assert!(matches!(d.get(&name), Some(File::Data(4))));
    assert!(d.refers_to(4));
    assert!(!d.refers_to(5));
    assert!(matches!(d.remove(&name), Some(File::Data(4))));
    assert!(d.get(&name).is_none());
    assert!(d.remove(&name).is_none());
}
