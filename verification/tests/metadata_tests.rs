use robosync::metadata::{is_network_path, CopyFlags};

#[test]
fn test_copy_flags_parsing() {
    let flags = CopyFlags::from_string("DAT");
    assert!(flags.data);
    assert!(flags.attributes);
    assert!(flags.timestamps);
    assert!(!flags.security);
    assert!(!flags.owner);
    assert!(!flags.auditing);

    let all_flags = CopyFlags::from_string("DATSOU");
    assert!(all_flags.data);
    assert!(all_flags.attributes);
    assert!(all_flags.timestamps);
    assert!(all_flags.security);
    assert!(all_flags.owner);
    assert!(all_flags.auditing);
}

#[test]
fn test_default_flags() {
    let flags = CopyFlags::default();
    assert!(flags.data);
    assert!(flags.attributes);
    assert!(flags.timestamps);
    assert!(!flags.security);
    assert!(!flags.owner);
    assert!(!flags.auditing);
}

#[test]
fn test_all_flags() {
    let flags = CopyFlags::all();
    assert!(flags.data);
    assert!(flags.attributes);
    assert!(flags.timestamps);
    assert!(flags.security);
    assert!(flags.owner);
    assert!(flags.auditing);
}

#[test]
fn test_copy_flags_lowercase() {
    let flags = CopyFlags::from_string("dat");
    assert!(flags.data);
    assert!(flags.attributes);
    assert!(flags.timestamps);
    assert!(!flags.security);
}

#[test]
fn test_is_network_path() {
    assert!(is_network_path("/mnt/share/file.txt"));
    assert!(is_network_path("/media/usb"));
    assert!(is_network_path("/net/host/dir"));
    assert!(is_network_path("/smb/server"));
    assert!(!is_network_path("/home/user/file.txt"));
    assert!(!is_network_path("/mntx/file"));
}
