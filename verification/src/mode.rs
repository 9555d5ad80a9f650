//! The symbolic rendering of a mode word: one character for the file type and
//! nine for the permissions of owner, group and others.

use vstd::prelude::*;

verus! {

/// The bits of a mode word that hold the file type.
pub const TYPE_MASK: u32 = 0o170000;

/// The value of the type bits that marks a directory.
pub const DIRECTORY_TYPE: u32 = 0o040000;

/// The number of characters in a rendered mode.
pub const MODE_WIDTH: usize = 10;

/// What a mode word says of the file type. Only directories are told apart;
/// links, devices, pipes and sockets all count as `Other`.
#[derive(Clone, Copy, Debug, PartialEq, Eq, Structural)]
pub enum FileKind {
    Directory,
    Other,
}

/// The kind that the type bits of `mode` encode.
pub open spec fn kind_of(mode: u32) -> FileKind {
    if mode & TYPE_MASK == DIRECTORY_TYPE {
        FileKind::Directory
    } else {
        FileKind::Other
    }
}

/// The first character of a rendered mode.
pub open spec fn kind_char(kind: FileKind) -> char {
    match kind {
        FileKind::Directory => 'd',
        FileKind::Other => '-',
    }
}

/// The permission bit that slot `slot` tests. Slots run from 0 (owner read,
/// the highest of the nine bits) to 8 (others execute, the lowest).
pub open spec fn permission_bit(slot: u32) -> u32 {
    0o400u32 >> slot
}

/// The letter that slot `slot` shows when its bit is set: read, write and
/// execute, in that order, within each of the three groups.
pub open spec fn permission_letter(slot: u32) -> char {
    if slot % 3 == 0 {
        'r'
    } else if slot % 3 == 1 {
        'w'
    } else {
        'x'
    }
}

/// The character that slot `slot` shows for `mode`.
pub open spec fn permission_char(mode: u32, slot: u32) -> char {
    if mode & permission_bit(slot) != 0 {
        permission_letter(slot)
    } else {
        '-'
    }
}

/// The ten characters that render `mode`: the type character, then the nine
/// permission slots from owner read down to others execute.
pub open spec fn mode_chars(mode: u32) -> Seq<char> {
    Seq::new(
        MODE_WIDTH as nat,
        |i: int|
            if i == 0 {
                kind_char(kind_of(mode))
            } else {
                permission_char(mode, (i - 1) as u32)
            },
    )
}

/// The nine permission bits, slot by slot, as octal masks.
pub proof fn lemma_permission_bits()
    ensures
        permission_bit(0) == 0o400,
        permission_bit(1) == 0o200,
        permission_bit(2) == 0o100,
        permission_bit(3) == 0o040,
        permission_bit(4) == 0o020,
        permission_bit(5) == 0o010,
        permission_bit(6) == 0o004,
        permission_bit(7) == 0o002,
        permission_bit(8) == 0o001,
{
    assert(0o400u32 >> 0u32 == 0o400) by (bit_vector);
    assert(0o400u32 >> 1u32 == 0o200) by (bit_vector);
    assert(0o400u32 >> 2u32 == 0o100) by (bit_vector);
    assert(0o400u32 >> 3u32 == 0o040) by (bit_vector);
    assert(0o400u32 >> 4u32 == 0o020) by (bit_vector);
    assert(0o400u32 >> 5u32 == 0o010) by (bit_vector);
    assert(0o400u32 >> 6u32 == 0o004) by (bit_vector);
    assert(0o400u32 >> 7u32 == 0o002) by (bit_vector);
    assert(0o400u32 >> 8u32 == 0o001) by (bit_vector);
}

/// Tells a directory from everything else by the type bits of `mode`.
pub fn file_kind(mode: u32) -> (kind: FileKind)
    ensures
        kind == kind_of(mode),
{
    if mode & TYPE_MASK == DIRECTORY_TYPE {
        FileKind::Directory
    } else {
        FileKind::Other
    }
}

/// Renders `mode` as ten characters, such as `drwxr-xr-x` or `-rw-r--r--`.
///
/// Set-uid, set-gid and sticky bits are not shown, and every type but a
/// directory is shown as `-`.
pub fn format_mode(mode: u32) -> (s: String)
    ensures
        s@ == mode_chars(mode),
        s@.len() == 10,
        s@[0] == 'd' <==> mode & TYPE_MASK == DIRECTORY_TYPE,
        s@[0] == '-' <==> mode & TYPE_MASK != DIRECTORY_TYPE,
        forall|slot: u32|
            0 <= slot < 9 ==> #[trigger] s@[slot + 1] == permission_char(mode, slot),
{
    proof {
        lemma_permission_bits();
    }
    let mut s = String::new();
    s.push(
        match file_kind(mode) {
            FileKind::Directory => 'd',
            FileKind::Other => '-',
        },
    );
    s.push(if mode & 0o400 != 0 { 'r' } else { '-' });
    s.push(if mode & 0o200 != 0 { 'w' } else { '-' });
    s.push(if mode & 0o100 != 0 { 'x' } else { '-' });
    s.push(if mode & 0o040 != 0 { 'r' } else { '-' });
    s.push(if mode & 0o020 != 0 { 'w' } else { '-' });
    s.push(if mode & 0o010 != 0 { 'x' } else { '-' });
    s.push(if mode & 0o004 != 0 { 'r' } else { '-' });
    s.push(if mode & 0o002 != 0 { 'w' } else { '-' });
    s.push(if mode & 0o001 != 0 { 'x' } else { '-' });
    assert(s@ =~= mode_chars(mode));
    s
}

} // verus!
