use pisshoff::file_system::{FileSystem, LsError};

#[test]
fn home_of_root_and_others() {
    assert_eq!(FileSystem::new(b"root").pwd(), b"/root");
    assert_eq!(FileSystem::new(b"alice").pwd(), b"/home/alice");
}

#[test]
fn read_after_write() {
    let mut fs = FileSystem::new(b"root");
    fs.write(b"notes", b"abc".to_vec()).unwrap();
    assert_eq!(fs.read(b"notes"), Ok(b"abc".to_vec()));
    assert_eq!(fs.read(b"/root/notes"), Ok(b"abc".to_vec()));
    fs.write(b"notes", b"xyz".to_vec()).unwrap();
    assert_eq!(fs.read(b"notes"), Ok(b"xyz".to_vec()));
}

#[test]
fn errors() {
    let mut fs = FileSystem::new(b"root");
    fs.write(b"f", b"1".to_vec()).unwrap();
    assert_eq!(fs.read(b"missing"), Err(LsError::NoSuchFileOrDirectory));
    assert_eq!(fs.read(b"f/inner"), Err(LsError::NotDirectory));
    assert_eq!(fs.read(b"/root"), Err(LsError::IsADirectory));
    assert_eq!(fs.write(b"/root", b"x".to_vec()), Err(LsError::IsADirectory));
    assert_eq!(fs.write(b"nodir/x", b"x".to_vec()), Err(LsError::NoSuchFileOrDirectory));
    assert_eq!(fs.mkdirall(b"f/sub"), Err(LsError::FileExists));
    assert_eq!(LsError::NotDirectory.message(), b"Not a directory".to_vec());
    assert_eq!(LsError::FileExists.message(), b"File exists".to_vec());
}

#[test]
fn ls_lists_in_order_of_creation() {
    let mut fs = FileSystem::new(b"root");
    fs.write(b"b", b"".to_vec()).unwrap();
    fs.mkdirall(b"a/deep").unwrap();
    fs.write(b"c", b"".to_vec()).unwrap();
    assert_eq!(fs.ls(None), Ok(vec![b"b".to_vec(), b"a".to_vec(), b"c".to_vec()]));
    assert_eq!(fs.ls(Some(b"a")), Ok(vec![b"deep".to_vec()]));
    assert_eq!(fs.ls(Some(b"b")), Ok(vec![b"b".to_vec()]));
    assert_eq!(fs.ls(Some(b"zzz")), Err(LsError::NoSuchFileOrDirectory));
}

#[test]
fn cd_keeps_what_was_typed() {
    let mut fs = FileSystem::new(b"root");
    fs.cd(Some(b".."));
    assert_eq!(fs.pwd(), b"/root/..");
    fs.cd(Some(b"/tmp"));
    assert_eq!(fs.pwd(), b"/tmp");
    fs.cd(None);
    assert_eq!(fs.pwd(), b"/root");
}
