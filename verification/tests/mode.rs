use dirlist::mode::{file_kind, format_mode, FileKind};

#[test]
fn regular_file_with_common_permissions() {
    assert_eq!(format_mode(0o100644), "-rw-r--r--");
}

#[test]
fn directory_with_common_permissions() {
    assert_eq!(format_mode(0o040755), "drwxr-xr-x");
}

#[test]
fn no_bits_set() {
    assert_eq!(format_mode(0), "----------");
}

#[test]
fn all_permission_bits_set() {
    assert_eq!(format_mode(0o777), "-rwxrwxrwx");
    assert_eq!(format_mode(0o040777), "drwxrwxrwx");
}

#[test]
fn each_permission_bit_has_its_own_slot() {
    assert_eq!(format_mode(0o400), "-r--------");
    assert_eq!(format_mode(0o200), "--w-------");
    assert_eq!(format_mode(0o100), "---x------");
    assert_eq!(format_mode(0o040), "----r-----");
    assert_eq!(format_mode(0o020), "-----w----");
    assert_eq!(format_mode(0o010), "------x---");
    assert_eq!(format_mode(0o004), "-------r--");
    assert_eq!(format_mode(0o002), "--------w-");
    assert_eq!(format_mode(0o001), "---------x");
}

#[test]
fn other_file_types_render_as_dash() {
    // symbolic link, character device, block device, pipe, socket
    assert_eq!(format_mode(0o120777), "-rwxrwxrwx");
    assert_eq!(format_mode(0o020620), "-rw--w----");
    assert_eq!(format_mode(0o060660), "-rw-rw----");
    assert_eq!(format_mode(0o010644), "-rw-r--r--");
    assert_eq!(format_mode(0o140755), "-rwxr-xr-x");
}

#[test]
fn special_bits_are_not_shown() {
    assert_eq!(format_mode(0o104755), "-rwxr-xr-x");
    assert_eq!(format_mode(0o102755), "-rwxr-xr-x");
    assert_eq!(format_mode(0o041777), "drwxrwxrwx");
}

#[test]
fn rendered_mode_is_always_ten_characters() {
    for mode in [0u32, 1, 0o644, 0o040755, 0o170000, 0o177777, u32::MAX] {
        let s = format_mode(mode);
        assert_eq!(s.chars().count(), 10);
        let first = s.chars().next();
        assert_eq!(first == Some('d'), mode & 0o170000 == 0o040000);
        for (slot, c) in s.chars().skip(1).enumerate() {
            let letter = ['r', 'w', 'x'][slot % 3];
            let set = mode & (0o400 >> slot) != 0;
            assert_eq!(c, if set { letter } else { '-' });
        }
    }
}

#[test]
fn bits_above_the_type_bits_are_ignored() {
    assert_eq!(format_mode(0o1040755), "drwxr-xr-x");
    assert_eq!(format_mode(u32::MAX), "-rwxrwxrwx");
}

#[test]
fn kind_tells_directories_from_the_rest() {
    assert_eq!(file_kind(0o040755), FileKind::Directory);
    assert_eq!(file_kind(0o100644), FileKind::Other);
    assert_eq!(file_kind(0o120777), FileKind::Other);
    assert_eq!(file_kind(0o060000), FileKind::Other);
    assert_eq!(file_kind(0), FileKind::Other);
}
