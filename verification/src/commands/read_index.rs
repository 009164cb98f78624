//! Decoding the staging-area index: a header, then one record for each
//! staged path.

use crate::bytes::{
    be_u32_at, index_of_byte, lemma_index_of_byte, lemma_index_of_byte_unique, take_be_u32,
    take_bytes, take_u8, take_until, truncated,
};
use crate::errors::{FormatFault, GeneralError};
use crate::text::{hex_chars, is_hex_digit, lemma_hex_chars, to_hex};
use vstd::prelude::*;
use vstd::slice::slice_to_vec;
use vstd::std_specs::convert::TryFromSpecImpl;
use vstd::utf8::{decode_utf8, valid_utf8};

pub mod fields;

use fields::{
    assume_valid, has_extended, intent_to_add, name_length, padding_after, permission_bits,
    reserved_clear, skip_worktree, spec_padding_after, stage_bits, type_code,
    PERMISSION_EXECUTABLE, PERMISSION_NONE, PERMISSION_READABLE, TYPE_FILE, TYPE_GITLINK,
    TYPE_SYMLINK,
};

verus! {

/// What kind of thing an entry records.
#[derive(Clone, Copy, Debug, PartialEq, Eq)]
pub enum ObjectType {
    File,
    SymLink,
    GitLink,
}

/// The permission recorded for an entry.
#[derive(Clone, Copy, Debug, PartialEq, Eq)]
pub enum Permission {
    /// Mode 0755.
    Executable,
    /// Mode 0644.
    Readable,
    /// Mode 0, for symbolic links and links to repositories.
    Absent,
}

impl ObjectType {
    /// The type that a four-bit code stands for, if any.
    pub open spec fn of_code(code: u8) -> Option<ObjectType> {
        if code == TYPE_FILE {
            Some(ObjectType::File)
        } else if code == TYPE_SYMLINK {
            Some(ObjectType::SymLink)
        } else if code == TYPE_GITLINK {
            Some(ObjectType::GitLink)
        } else {
            None
        }
    }

    /// The text of [`ObjectType::describe`].
    pub open spec fn spec_describe(self) -> Seq<char> {
        match self {
            ObjectType::File => "File (1000)"@,
            ObjectType::SymLink => "symlink (1010)"@,
            ObjectType::GitLink => "gitlink (1110)"@,
        }
    }

    /// The name of the type with its code in binary, as shown to a reader.
    pub fn describe(&self) -> (text: &'static str)
        ensures
            text@ == self.spec_describe(),
    {
        match self {
            ObjectType::File => "File (1000)",
            ObjectType::SymLink => "symlink (1010)",
            ObjectType::GitLink => "gitlink (1110)",
        }
    }
}

impl TryFrom<u8> for ObjectType {
    type Error = GeneralError;

    /// Reads a four-bit type code; any value but the three known is refused
    /// and comes back in the error.
    fn try_from(value: u8) -> (r: Result<Self, Self::Error>)
        ensures
            match ObjectType::of_code(value) {
                Some(object_type) => r matches Ok(t) && t == object_type,
                None => r matches Err(e) && e == GeneralError::InvalidFormat(
                    FormatFault::BadObjectType(value),
                ),
            },
    {
        if value == TYPE_FILE {
            Ok(ObjectType::File)
        } else if value == TYPE_SYMLINK {
            Ok(ObjectType::SymLink)
        } else if value == TYPE_GITLINK {
            Ok(ObjectType::GitLink)
        } else {
            Err(GeneralError::InvalidFormat(FormatFault::BadObjectType(value)))
        }
    }
}

impl TryFromSpecImpl<u8> for ObjectType {
    open spec fn obeys_try_from_spec() -> bool {
        true
    }

    open spec fn try_from_spec(value: u8) -> Result<Self, Self::Error> {
        match ObjectType::of_code(value) {
            Some(object_type) => Ok(object_type),
            None => Err(GeneralError::InvalidFormat(FormatFault::BadObjectType(value))),
        }
    }
}

impl Permission {
    /// The permission that a nine-bit value stands for, if any.
    pub open spec fn of_bits(bits: u16) -> Option<Permission> {
        if bits == PERMISSION_EXECUTABLE {
            Some(Permission::Executable)
        } else if bits == PERMISSION_READABLE {
            Some(Permission::Readable)
        } else if bits == PERMISSION_NONE {
            Some(Permission::Absent)
        } else {
            None
        }
    }

    /// The text of [`Permission::describe`].
    pub open spec fn spec_describe(self) -> Seq<char> {
        match self {
            Permission::Executable => "Executable (755)"@,
            Permission::Readable => "Readable (644)"@,
            Permission::Absent => "symlink/gitlink (0)"@,
        }
    }

    /// The name of the permission with its mode in octal, as shown to a reader.
    pub fn describe(&self) -> (text: &'static str)
        ensures
            text@ == self.spec_describe(),
    {
        match self {
            Permission::Executable => "Executable (755)",
            Permission::Readable => "Readable (644)",
            Permission::Absent => "symlink/gitlink (0)",
        }
    }
}

impl TryFrom<u16> for Permission {
    type Error = GeneralError;

    /// Reads a nine-bit permission; any value but the three known is refused
    /// and comes back in the error.
    fn try_from(value: u16) -> (r: Result<Self, Self::Error>)
        ensures
            match Permission::of_bits(value) {
                Some(permission) => r matches Ok(p) && p == permission,
                None => r matches Err(e) && e == GeneralError::InvalidFormat(
                    FormatFault::BadPermission(value),
                ),
            },
    {
        if value == PERMISSION_EXECUTABLE {
            Ok(Permission::Executable)
        } else if value == PERMISSION_READABLE {
            Ok(Permission::Readable)
        } else if value == PERMISSION_NONE {
            Ok(Permission::Absent)
        } else {
            Err(GeneralError::InvalidFormat(FormatFault::BadPermission(value)))
        }
    }
}

impl TryFromSpecImpl<u16> for Permission {
    open spec fn obeys_try_from_spec() -> bool {
        true
    }

    open spec fn try_from_spec(value: u16) -> Result<Self, Self::Error> {
        match Permission::of_bits(value) {
            Some(permission) => Ok(permission),
            None => Err(GeneralError::InvalidFormat(FormatFault::BadPermission(value))),
        }
    }
}

/// The extended flags of an entry, present from version 3 on.
#[derive(Clone, Copy, Debug, PartialEq, Eq)]
pub struct EntryExtend {
    pub skip_worktree_flag: bool,
    pub intent_to_add_flag: bool,
}

/// One staged path as the index records it.
#[derive(Debug)]
pub struct Entry {
    /// When the file's metadata last changed: seconds.
    pub c_time: u32,
    /// When the file's metadata last changed: nanoseconds.
    pub c_time_nano: u32,
    /// When the file's content last changed: seconds.
    pub m_time: u32,
    /// When the file's content last changed: nanoseconds.
    pub m_time_nano: u32,
    pub dev: u32,
    pub ino: u32,
    pub object_type: ObjectType,
    pub permission: Permission,
    pub uid: u32,
    pub gid: u32,
    /// The size of the file, cut to 32 bits.
    pub file_size: u32,
    /// The 20-byte hash of the content in capital hexadecimal digits.
    pub object_name: String,
    pub assume_valid_flag: bool,
    pub staged_flag: (bool, bool),
    /// The length of the path as recorded, which stops at 0xFFF.
    pub name_length: u16,
    pub extend: Option<EntryExtend>,
    /// The path, relative to the top of the working tree.
    pub path_name: String,
}

/// What an [`Entry`] holds, with its texts as sequences of characters.
pub struct EntryView {
    pub c_time: u32,
    pub c_time_nano: u32,
    pub m_time: u32,
    pub m_time_nano: u32,
    pub dev: u32,
    pub ino: u32,
    pub object_type: ObjectType,
    pub permission: Permission,
    pub uid: u32,
    pub gid: u32,
    pub file_size: u32,
    pub object_name: Seq<char>,
    pub assume_valid_flag: bool,
    pub staged_flag: (bool, bool),
    pub name_length: u16,
    pub extend: Option<EntryExtend>,
    pub path_name: Seq<char>,
}

impl EntryView {
    /// What holds of every entry that was decoded: its object name is 40
    /// capital hexadecimal digits, and its name length fits in twelve bits.
    pub open spec fn well_formed(self) -> bool {
        &&& self.object_name.len() == 40
        &&& forall|i: int| 0 <= i < 40 ==> is_hex_digit(#[trigger] self.object_name[i], true)
        &&& self.name_length <= 0xFFF
    }
}

impl View for Entry {
    type V = EntryView;

    open spec fn view(&self) -> EntryView {
        EntryView {
            c_time: self.c_time,
            c_time_nano: self.c_time_nano,
            m_time: self.m_time,
            m_time_nano: self.m_time_nano,
            dev: self.dev,
            ino: self.ino,
            object_type: self.object_type,
            permission: self.permission,
            uid: self.uid,
            gid: self.gid,
            file_size: self.file_size,
            object_name: self.object_name@,
            assume_valid_flag: self.assume_valid_flag,
            staged_flag: self.staged_flag,
            name_length: self.name_length,
            extend: self.extend,
            path_name: self.path_name@,
        }
    }
}

/// A decoded index: its version and its entries in the order of the file.
#[derive(Debug)]
pub struct Index {
    version: u32,
    entries: Vec<Entry>,
}

/// What an [`Index`] holds.
pub struct IndexView {
    pub version: u32,
    pub entries: Seq<EntryView>,
}

impl IndexView {
    /// Every entry is well formed, and extended flags occur only from
    /// version 3 on.
    pub open spec fn well_formed(self) -> bool {
        &&& forall|i: int|
            0 <= i < self.entries.len() ==> (#[trigger] self.entries[i]).well_formed()
        &&& forall|i: int|
            0 <= i < self.entries.len() && (#[trigger] self.entries[i]).extend is Some
                ==> self.version >= 3
    }
}

impl View for Index {
    type V = IndexView;

    closed spec fn view(&self) -> IndexView {
        IndexView { version: self.version, entries: self.entries@.map_values(|e: Entry| e@) }
    }
}

impl Index {
    /// An index of version 0 without entries.
    pub fn new() -> (index: Index)
        ensures
            index@ == (IndexView { version: 0, entries: Seq::empty() }),
            index@.well_formed(),
    {
        let index = Index { version: 0, entries: Vec::new() };
        assert(index@.entries =~= Seq::empty());
        index
    }

    /// An index of the given version without entries.
    pub fn with_version(version: u32) -> (index: Index)
        ensures
            index@ == (IndexView { version: version, entries: Seq::empty() }),
            index@.well_formed(),
    {
        let index = Index { version, entries: Vec::new() };
        assert(index@.entries =~= Seq::empty());
        index
    }

    /// Replaces the version and leaves the entries as they are. The index
    /// stays well formed unless an entry has extended flags and the new
    /// version is below 3.
    pub fn set_version(&mut self, version: u32)
        ensures
            final(self)@ == (IndexView { version: version, entries: old(self)@.entries }),
            old(self)@.well_formed() && (version >= 3 || forall|i: int|
                0 <= i < old(self)@.entries.len() ==> (#[trigger] old(self)@.entries[i]).extend
                    is None) ==> final(self)@.well_formed(),
    {
        self.version = version;
    }

    /// Adds an entry behind those that are there. The index stays well
    /// formed if the entry is, unless it has extended flags and the version
    /// is below 3.
    pub fn push_entry(&mut self, entry: Entry)
        ensures
            final(self)@ == (IndexView {
                version: old(self)@.version,
                entries: old(self)@.entries.push(entry@),
            }),
            old(self)@.well_formed() && entry@.well_formed() && (entry@.extend is Some ==> old(
                self,
            )@.version >= 3) ==> final(self)@.well_formed(),
    {
        self.entries.push(entry);
        assert(self@.entries =~= old(self)@.entries.push(entry@));
    }

    /// The version of the index.
    pub fn version(&self) -> (version: u32)
        ensures
            version == self@.version,
    {
        self.version
    }

    /// The entries in the order of the file.
    pub fn entries(&self) -> (entries: &Vec<Entry>)
        ensures
            entries@.len() == self@.entries.len(),
            forall|i: int| 0 <= i < entries@.len() ==> entries@[i]@ == self@.entries[i],
    {
        &self.entries
    }
}

/// Where the name of the record at `at` starts: behind the fixed fields and,
/// where the flags announce them, the two extended bytes.
pub open spec fn name_start(buf: Seq<u8>, at: int) -> int {
    if has_extended(buf[at + 60]) {
        at + 64
    } else {
        at + 62
    }
}

/// Where the name of the record at `at` ends: at the first zero byte from
/// its start on, or at the end of the buffer where there is none.
pub open spec fn name_end(buf: Seq<u8>, at: int) -> int {
    index_of_byte(buf, 0, name_start(buf, at))
}

/// Why the record at `at` cannot be decoded; `None` where it can. The checks
/// come in the order of the fields, and the first that fails decides.
pub open spec fn entry_fault(buf: Seq<u8>, at: int, version: u32) -> Option<FormatFault> {
    let mode_high = buf[at + 26];
    let mode_low = buf[at + 27];
    let extended = has_extended(buf[at + 60]);
    if at < 0 || buf.len() < at + 28 {
        Some(FormatFault::Truncated)
    } else if ObjectType::of_code(type_code(mode_high)) is None {
        Some(FormatFault::BadObjectType(type_code(mode_high)))
    } else if Permission::of_bits(permission_bits(mode_high, mode_low)) is None {
        Some(FormatFault::BadPermission(permission_bits(mode_high, mode_low)))
    } else if buf.len() < at + 62 {
        Some(FormatFault::Truncated)
    } else if extended && version == 2 {
        Some(FormatFault::ExtendedFlagInVersion2)
    } else if extended && buf.len() < at + 64 {
        Some(FormatFault::Truncated)
    } else if extended && !reserved_clear(buf[at + 62], buf[at + 63]) {
        Some(FormatFault::ReservedNotZero)
    } else if name_end(buf, at) >= buf.len() {
        Some(FormatFault::Truncated)
    } else if !valid_utf8(buf.subrange(name_start(buf, at), name_end(buf, at))) {
        Some(FormatFault::BadPathEncoding)
    } else {
        None
    }
}

/// What the record at `at` says, field by field.
pub open spec fn entry_at(buf: Seq<u8>, at: int) -> EntryView {
    EntryView {
        c_time: be_u32_at(buf, at),
        c_time_nano: be_u32_at(buf, at + 4),
        m_time: be_u32_at(buf, at + 8),
        m_time_nano: be_u32_at(buf, at + 12),
        dev: be_u32_at(buf, at + 16),
        ino: be_u32_at(buf, at + 20),
        object_type: ObjectType::of_code(type_code(buf[at + 26])).unwrap(),
        permission: Permission::of_bits(permission_bits(buf[at + 26], buf[at + 27])).unwrap(),
        uid: be_u32_at(buf, at + 28),
        gid: be_u32_at(buf, at + 32),
        file_size: be_u32_at(buf, at + 36),
        object_name: hex_chars(buf.subrange(at + 40, at + 60), true),
        assume_valid_flag: assume_valid(buf[at + 60]),
        staged_flag: stage_bits(buf[at + 60]),
        name_length: name_length(buf[at + 60], buf[at + 61]),
        extend: if has_extended(buf[at + 60]) {
            Some(
                EntryExtend {
                    skip_worktree_flag: skip_worktree(buf[at + 62]),
                    intent_to_add_flag: intent_to_add(buf[at + 62]),
                },
            )
        } else {
            None
        },
        path_name: decode_utf8(buf.subrange(name_start(buf, at), name_end(buf, at))),
    }
}

/// The record at `at` in an index of the given version: the entry and the
/// offset behind the zero byte that ends its name, or the error.
pub open spec fn parse_entry(buf: Seq<u8>, at: int, version: u32) -> Result<
    (EntryView, int),
    GeneralError,
> {
    match entry_fault(buf, at, version) {
        Some(fault) => Err(GeneralError::InvalidFormat(fault)),
        None => Ok((entry_at(buf, at), name_end(buf, at) + 1)),
    }
}

/// Where the record starts that follows one from `at` to `end`, its name's
/// terminator included.
pub open spec fn next_entry_at(at: int, end: int) -> int {
    end + spec_padding_after(end - at)
}

/// Decodes the record that starts at `at`. Gives the entry and the offset
/// behind the zero byte that ends its name; the padding follows there.
pub fn decode_entry(buf: &[u8], at: usize, version: u32) -> (r: Result<(Entry, usize), GeneralError>)
    ensures
        match parse_entry(buf@, at as int, version) {
            Ok((entry, end)) => r matches Ok((e, next)) && e@ == entry && next == end,
            Err(fault) => r matches Err(e) && e == fault,
        },
        r matches Ok((_, next)) ==> at + 63 <= next <= buf@.len(),
        r matches Ok((e, _)) ==> {
            &&& e@.well_formed()
            &&& version == 2 ==> e@.extend is None
        },
{
    let (c_time, p): (u32, usize) = take_be_u32(buf, at)?;
    let (c_time_nano, p): (u32, usize) = take_be_u32(buf, p)?;
    let (m_time, p): (u32, usize) = take_be_u32(buf, p)?;
    let (m_time_nano, p): (u32, usize) = take_be_u32(buf, p)?;
    let (dev, p): (u32, usize) = take_be_u32(buf, p)?;
    let (ino, p): (u32, usize) = take_be_u32(buf, p)?;
    let (_, p): (&[u8], usize) = take_bytes(buf, p, 2)?;
    let (mode_high, p): (u8, usize) = take_u8(buf, p)?;
    let (mode_low, p): (u8, usize) = take_u8(buf, p)?;
    let object_type = ObjectType::try_from(type_code(mode_high))?;
    let permission = Permission::try_from(permission_bits(mode_high, mode_low))?;
    let (uid, p): (u32, usize) = take_be_u32(buf, p)?;
    let (gid, p): (u32, usize) = take_be_u32(buf, p)?;
    let (file_size, p): (u32, usize) = take_be_u32(buf, p)?;
    let (hash, p): (&[u8], usize) = take_bytes(buf, p, 20)?;
    let (flags, p): (u8, usize) = take_u8(buf, p)?;
    let (length_low, p): (u8, usize) = take_u8(buf, p)?;
    let extended = has_extended(flags);
    if extended && version == 2 {
        return Err(GeneralError::InvalidFormat(FormatFault::ExtendedFlagInVersion2));
    }
    let mut extend: Option<EntryExtend> = None;
    let mut name_at: usize = p;
    if extended {
        let (extended_high, p): (u8, usize) = take_u8(buf, p)?;
        let (extended_low, p): (u8, usize) = take_u8(buf, p)?;
        if !reserved_clear(extended_high, extended_low) {
            return Err(GeneralError::InvalidFormat(FormatFault::ReservedNotZero));
        }
        extend = Some(
            EntryExtend {
                skip_worktree_flag: skip_worktree(extended_high),
                intent_to_add_flag: intent_to_add(extended_high),
            },
        );
        name_at = p;
    }
    let (name, end): (&[u8], usize) = take_until(buf, 0, name_at)?;
    proof {
        lemma_index_of_byte(buf@, 0, name_at as int);
        lemma_hex_chars(hash@, true);
    }
    let path_name = match String::from_utf8(slice_to_vec(name)) {
        Ok(text) => text,
        Err(_) => {
            return Err(GeneralError::InvalidFormat(FormatFault::BadPathEncoding));
        },
    };
    let entry = Entry {
        c_time,
        c_time_nano,
        m_time,
        m_time_nano,
        dev,
        ino,
        object_type,
        permission,
        uid,
        gid,
        file_size,
        object_name: to_hex(hash, true),
        assume_valid_flag: assume_valid(flags),
        staged_flag: stage_bits(flags),
        name_length: name_length(flags, length_low),
        extend,
        path_name,
    };
    Ok((entry, end))
}

/// Whether `buf` begins with the four letters of the index signature.
pub open spec fn has_signature(buf: Seq<u8>) -> bool {
    buf.len() >= 4 && buf[0] == 0x44 && buf[1] == 0x49 && buf[2] == 0x52 && buf[3] == 0x43
}

/// The `count` records of `buf` from `at` on, each starting where the
/// padding of the one before ends; the first error, where one fails.
pub open spec fn parse_entries(buf: Seq<u8>, at: int, count: nat, version: u32) -> Result<
    Seq<EntryView>,
    GeneralError,
>
    decreases count,
{
    if count == 0 {
        Ok(Seq::empty())
    } else {
        match parse_entry(buf, at, version) {
            Err(e) => Err(e),
            Ok((entry, end)) => match parse_entries(
                buf,
                next_entry_at(at, end),
                (count - 1) as nat,
                version,
            ) {
                Err(e) => Err(e),
                Ok(rest) => Ok(seq![entry] + rest),
            },
        }
    }
}

/// What the index file `buf` says: the signature, the version, the number
/// of entries, then that many records. What follows them is not looked at.
pub open spec fn parse_index(buf: Seq<u8>) -> Result<IndexView, GeneralError> {
    if !has_signature(buf) {
        Err(GeneralError::InvalidFormat(FormatFault::BadSignature))
    } else if buf.len() < 8 {
        Err(truncated())
    } else if be_u32_at(buf, 4) == 4 {
        Err(GeneralError::UnsupportedVersion(4))
    } else if be_u32_at(buf, 4) != 2 && be_u32_at(buf, 4) != 3 {
        Err(GeneralError::InvalidFormat(FormatFault::BadVersion(be_u32_at(buf, 4))))
    } else if buf.len() < 12 {
        Err(truncated())
    } else {
        match parse_entries(buf, 12, be_u32_at(buf, 8) as nat, be_u32_at(buf, 4)) {
            Err(e) => Err(e),
            Ok(entries) => Ok(IndexView { version: be_u32_at(buf, 4), entries: entries }),
        }
    }
}

/// The entries decoded so far in front of what the rest of the buffer gives.
spec fn with_decoded(done: Seq<EntryView>, rest: Result<Seq<EntryView>, GeneralError>)
    -> Result<Seq<EntryView>, GeneralError> {
    match rest {
        Err(e) => Err(e),
        Ok(more) => Ok(done + more),
    }
}

/// Behind the end of the buffer every offset gives the same: no record, and
/// so an error as soon as one is asked for.
proof fn lemma_parse_entries_past_end(
    buf: Seq<u8>,
    first: int,
    second: int,
    count: nat,
    version: u32,
)
    requires
        first + 28 > buf.len(),
        second + 28 > buf.len(),
    ensures
        parse_entries(buf, first, count, version) == parse_entries(buf, second, count, version),
{
}

/// Decoding one more record moves it from the rest to the entries decoded.
proof fn lemma_parse_entries_step(
    buf: Seq<u8>,
    done: Seq<EntryView>,
    at: int,
    count: nat,
    version: u32,
)
    requires
        count > 0,
        parse_entry(buf, at, version) is Ok,
    ensures
        with_decoded(done, parse_entries(buf, at, count, version)) == with_decoded(
            done.push(parse_entry(buf, at, version).unwrap().0),
            parse_entries(
                buf,
                next_entry_at(at, parse_entry(buf, at, version).unwrap().1),
                (count - 1) as nat,
                version,
            ),
        ),
{
    let (entry, end) = parse_entry(buf, at, version).unwrap();
    match parse_entries(buf, next_entry_at(at, end), (count - 1) as nat, version) {
        Err(_) => {},
        Ok(rest) => {
            assert(done + (seq![entry] + rest) =~= done.push(entry) + rest);
        },
    }
}

/// Decodes an index file held in memory.
///
/// The buffer must start with the signature `DIRC`, a version of 2 or 3 and
/// the number of entries; that many records follow, each padded to a
/// multiple of eight bytes. Version 4 is known and not decoded. What comes
/// behind the last record is not looked at.
pub fn get_index(buf: &[u8]) -> (r: Result<Index, GeneralError>)
    ensures
        match parse_index(buf@) {
            Ok(index) => r matches Ok(decoded) && decoded@ == index,
            Err(fault) => r matches Err(e) && e == fault,
        },
        !has_signature(buf@) ==> (r matches Err(e) && e == GeneralError::InvalidFormat(
            FormatFault::BadSignature,
        )),
        has_signature(buf@) && buf@.len() >= 8 && be_u32_at(buf@, 4) == 4 ==> (r matches Err(e)
            && e == GeneralError::UnsupportedVersion(4)),
        r matches Ok(decoded) ==> {
            &&& decoded@.version == 2 || decoded@.version == 3
            &&& decoded@.entries.len() == be_u32_at(buf@, 8)
            &&& decoded@.well_formed()
        },
{
    let signed = match take_bytes(buf, 0, 4) {
        Ok((letters, _)) => letters[0] == 0x44 && letters[1] == 0x49 && letters[2] == 0x52
            && letters[3] == 0x43,
        Err(_) => false,
    };
    if !signed {
        return Err(GeneralError::InvalidFormat(FormatFault::BadSignature));
    }
    let (version, p): (u32, usize) = take_be_u32(buf, 4)?;
    if version == 4 {
        return Err(GeneralError::UnsupportedVersion(version));
    }
    if version != 2 && version != 3 {
        return Err(GeneralError::InvalidFormat(FormatFault::BadVersion(version)));
    }
    let (count, p): (u32, usize) = take_be_u32(buf, p)?;
    let mut index = Index::with_version(version);
    let mut offset: usize = p;
    let mut decoded: u32 = 0;
    while decoded < count
        invariant
            has_signature(buf@),
            buf@.len() >= 12,
            version == be_u32_at(buf@, 4),
            version == 2 || version == 3,
            count == be_u32_at(buf@, 8),
            decoded <= count,
            index@.version == version,
            index@.entries.len() == decoded,
            index@.well_formed(),
            parse_entries(buf@, 12, count as nat, version) == with_decoded(
                index@.entries,
                parse_entries(buf@, offset as int, (count - decoded) as nat, version),
            ),
        decreases count - decoded,
    {
        let (entry, end): (Entry, usize) = decode_entry(buf, offset, version)?;
        proof {
            lemma_parse_entries_step(
                buf@,
                index@.entries,
                offset as int,
                (count - decoded) as nat,
                version,
            );
        }
        let padding: usize = padding_after(end - offset);
        let next: usize = if buf.len() - end >= padding {
            end + padding
        } else {
            buf.len()
        };
        proof {
            if next != next_entry_at(offset as int, end as int) {
                lemma_parse_entries_past_end(
                    buf@,
                    next as int,
                    next_entry_at(offset as int, end as int),
                    (count - decoded - 1) as nat,
                    version,
                );
            }
        }
        index.push_entry(entry);
        offset = next;
        decoded += 1;
    }
    assert(index@.entries + Seq::<EntryView>::empty() =~= index@.entries);
    Ok(index)
}

/// Records are aligned: from the start of a record to the start of the next
/// is a multiple of eight bytes, at least 64, with one to eight bytes of
/// padding behind the zero byte that ends the name.
pub proof fn lemma_record_is_aligned(buf: Seq<u8>, at: int, version: u32)
    requires
        parse_entry(buf, at, version) is Ok,
    ensures
        (next_entry_at(at, parse_entry(buf, at, version).unwrap().1) - at) % 8 == 0,
        next_entry_at(at, parse_entry(buf, at, version).unwrap().1) - at >= 64,
        1 <= next_entry_at(at, parse_entry(buf, at, version).unwrap().1) - parse_entry(
            buf,
            at,
            version,
        ).unwrap().1 <= 8,
{
    lemma_index_of_byte(buf, 0, name_start(buf, at));
}

/// In an index of version 2 a record whose flags announce extended flags is
/// malformed: decoding it fails, and with that very fault where the fields
/// in front of the flags are sound.
pub proof fn lemma_extended_flag_refused_in_version_2(buf: Seq<u8>, at: int)
    requires
        has_extended(buf[at + 60]),
    ensures
        parse_entry(buf, at, 2) matches Err(GeneralError::InvalidFormat(_)),
        0 <= at && at + 62 <= buf.len() && ObjectType::of_code(type_code(buf[at + 26])) is Some
            && Permission::of_bits(permission_bits(buf[at + 26], buf[at + 27])) is Some
            ==> parse_entry(buf, at, 2) == Err::<(EntryView, int), GeneralError>(
            GeneralError::InvalidFormat(FormatFault::ExtendedFlagInVersion2),
        ),
{
}

/// An entry has extended flags exactly where the flags byte of its record
/// announces them: the bit is never dropped.
pub proof fn lemma_extended_flag_is_kept(buf: Seq<u8>, at: int, version: u32)
    requires
        parse_entry(buf, at, version) is Ok,
    ensures
        parse_entry(buf, at, version).unwrap().0.extend is Some <==> has_extended(buf[at + 60]),
        parse_entry(buf, at, version).unwrap().0.extend is Some ==> version != 2,
{
}

/// No entry of an index of version 2 has extended flags.
pub proof fn lemma_version_2_has_no_extended(buf: Seq<u8>, at: int, count: nat)
    ensures
        parse_entries(buf, at, count, 2) matches Ok(entries) ==> forall|i: int|
            0 <= i < entries.len() ==> (#[trigger] entries[i]).extend is None,
    decreases count,
{
    if count > 0 {
        if let Ok((entry, end)) = parse_entry(buf, at, 2) {
            lemma_version_2_has_no_extended(buf, next_entry_at(at, end), (count - 1) as nat);
        }
    }
}

/// A record that decodes is decoded the same with more bytes behind the
/// buffer.
proof fn lemma_entry_ignores_later_bytes(buf: Seq<u8>, extra: Seq<u8>, at: int, version: u32)
    requires
        parse_entry(buf, at, version) is Ok,
    ensures
        parse_entry(buf + extra, at, version) == parse_entry(buf, at, version),
{
    let longer = buf + extra;
    let from = name_start(buf, at);
    let to = name_end(buf, at);
    lemma_index_of_byte(buf, 0, from);
    assert forall|i: int| 0 <= i < buf.len() implies longer[i] == buf[i] by {}
    lemma_index_of_byte_unique(longer, 0, from, to);
    assert(longer.subrange(from, to) =~= buf.subrange(from, to));
    assert(longer.subrange(at + 40, at + 60) =~= buf.subrange(at + 40, at + 60));
}

/// Records that decode are decoded the same with more bytes behind the
/// buffer.
proof fn lemma_entries_ignore_later_bytes(
    buf: Seq<u8>,
    extra: Seq<u8>,
    at: int,
    count: nat,
    version: u32,
)
    requires
        parse_entries(buf, at, count, version) is Ok,
    ensures
        parse_entries(buf + extra, at, count, version) == parse_entries(buf, at, count, version),
    decreases count,
{
    if count > 0 {
        lemma_entry_ignores_later_bytes(buf, extra, at, version);
        let (_, end) = parse_entry(buf, at, version).unwrap();
        lemma_entries_ignore_later_bytes(
            buf,
            extra,
            next_entry_at(at, end),
            (count - 1) as nat,
            version,
        );
    }
}

/// What stands behind the last record is not looked at: an index that
/// decodes is decoded the same whatever bytes follow it.
pub proof fn lemma_trailing_bytes_are_ignored(buf: Seq<u8>, extra: Seq<u8>)
    requires
        parse_index(buf) is Ok,
    ensures
        parse_index(buf + extra) == parse_index(buf),
{
    lemma_entries_ignore_later_bytes(
        buf,
        extra,
        12,
        be_u32_at(buf, 8) as nat,
        be_u32_at(buf, 4),
    );
}

} // verus!
