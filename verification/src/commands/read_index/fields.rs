//! The packed fields of an index record: the constants that name their bits
//! and one function for each field.

use vstd::prelude::*;

verus! {

/// The four-bit code of a regular file.
pub const TYPE_FILE: u8 = 0b1000;

/// The four-bit code of a symbolic link.
pub const TYPE_SYMLINK: u8 = 0b1010;

/// The four-bit code of a link to another repository.
pub const TYPE_GITLINK: u8 = 0b1110;

/// The permission bits of an executable file.
pub const PERMISSION_EXECUTABLE: u16 = 0o755;

/// The permission bits of a file that is not executable.
pub const PERMISSION_READABLE: u16 = 0o644;

/// The permission bits of an entry that is no regular file.
pub const PERMISSION_NONE: u16 = 0;

/// In the first mode byte: the bits of the object type.
pub const MODE_TYPE_MASK: u8 = 0b1111_0000;

/// In the first mode byte: the ninth permission bit.
pub const MODE_PERMISSION_HIGH: u8 = 0b0000_0001;

/// In the flags byte: the entry is assumed unchanged.
pub const FLAG_ASSUME_VALID: u8 = 0b1000_0000;

/// In the flags byte: two bytes of extended flags follow.
pub const FLAG_EXTENDED: u8 = 0b0100_0000;

/// In the flags byte: the first stage bit.
pub const FLAG_STAGE_FIRST: u8 = 0b0010_0000;

/// In the flags byte: the second stage bit.
pub const FLAG_STAGE_SECOND: u8 = 0b0001_0000;

/// In the flags byte: the upper four bits of the name length.
pub const FLAG_NAME_HIGH: u8 = 0b0000_1111;

/// In the first extended byte: the entry is left out of the working tree.
pub const EXTENDED_SKIP_WORKTREE: u8 = 0b0100_0000;

/// In the first extended byte: the path is to be added later.
pub const EXTENDED_INTENT_TO_ADD: u8 = 0b0010_0000;

/// In the first extended byte: the bits that carry nothing and must be zero.
pub const EXTENDED_RESERVED: u8 = 0b1001_1111;

/// The object type code in the first mode byte: its upper four bits.
pub open spec fn spec_type_code(mode_high: u8) -> u8 {
    (mode_high & MODE_TYPE_MASK) >> 4
}

/// The object type code in the first mode byte: its upper four bits.
#[verifier::when_used_as_spec(spec_type_code)]
pub fn type_code(mode_high: u8) -> (code: u8)
    ensures
        code == spec_type_code(mode_high),
        code == mode_high / 16,
{
    assert((mode_high & 0b1111_0000u8) >> 4 == mode_high / 16) by (bit_vector);
    (mode_high & MODE_TYPE_MASK) >> 4
}

/// The nine permission bits: the lowest bit of the first mode byte, then
/// the whole second byte.
pub open spec fn spec_permission_bits(mode_high: u8, mode_low: u8) -> u16 {
    (((mode_high & MODE_PERMISSION_HIGH) as u16) << 8) | (mode_low as u16)
}

/// The nine permission bits: the lowest bit of the first mode byte, then
/// the whole second byte.
#[verifier::when_used_as_spec(spec_permission_bits)]
pub fn permission_bits(mode_high: u8, mode_low: u8) -> (bits: u16)
    ensures
        bits == spec_permission_bits(mode_high, mode_low),
        bits == (mode_high % 2) * 256 + mode_low,
{
    assert((((mode_high & 0b0000_0001u8) as u16) << 8) | (mode_low as u16) == (mode_high % 2) * 256
        + mode_low) by (bit_vector);
    (((mode_high & MODE_PERMISSION_HIGH) as u16) << 8) | (mode_low as u16)
}

/// Whether the flags byte marks the entry as assumed unchanged.
pub open spec fn spec_assume_valid(flags: u8) -> bool {
    flags & FLAG_ASSUME_VALID != 0
}

/// Whether the flags byte marks the entry as assumed unchanged.
#[verifier::when_used_as_spec(spec_assume_valid)]
pub fn assume_valid(flags: u8) -> (set: bool)
    ensures
        set == spec_assume_valid(flags),
        set == (flags >= 128),
{
    assert((flags & 0b1000_0000u8 != 0) == (flags >= 128)) by (bit_vector);
    flags & FLAG_ASSUME_VALID != 0
}

/// Whether the flags byte announces two bytes of extended flags.
pub open spec fn spec_has_extended(flags: u8) -> bool {
    flags & FLAG_EXTENDED != 0
}

/// Whether the flags byte announces two bytes of extended flags.
#[verifier::when_used_as_spec(spec_has_extended)]
pub fn has_extended(flags: u8) -> (set: bool)
    ensures
        set == spec_has_extended(flags),
        set == (flags / 64 % 2 == 1),
{
    assert((flags & 0b0100_0000u8 != 0) == (flags / 64 % 2 == 1)) by (bit_vector);
    flags & FLAG_EXTENDED != 0
}

/// The two stage bits of the flags byte, the higher one first.
pub open spec fn spec_stage_bits(flags: u8) -> (bool, bool) {
    (flags & FLAG_STAGE_FIRST != 0, flags & FLAG_STAGE_SECOND != 0)
}

/// The two stage bits of the flags byte, the higher one first.
#[verifier::when_used_as_spec(spec_stage_bits)]
pub fn stage_bits(flags: u8) -> (bits: (bool, bool))
    ensures
        bits == spec_stage_bits(flags),
        bits.0 == (flags / 32 % 2 == 1),
        bits.1 == (flags / 16 % 2 == 1),
{
    assert((flags & 0b0010_0000u8 != 0) == (flags / 32 % 2 == 1)) by (bit_vector);
    assert((flags & 0b0001_0000u8 != 0) == (flags / 16 % 2 == 1)) by (bit_vector);
    (flags & FLAG_STAGE_FIRST != 0, flags & FLAG_STAGE_SECOND != 0)
}

/// The twelve-bit name length: the lower four bits of the flags byte, then
/// the whole byte behind it.
pub open spec fn spec_name_length(flags: u8, low: u8) -> u16 {
    (((flags & FLAG_NAME_HIGH) as u16) << 8) | (low as u16)
}

/// The twelve-bit name length: the lower four bits of the flags byte, then
/// the whole byte behind it.
#[verifier::when_used_as_spec(spec_name_length)]
pub fn name_length(flags: u8, low: u8) -> (length: u16)
    ensures
        length == spec_name_length(flags, low),
        length == (flags % 16) * 256 + low,
        length <= 0xFFF,
{
    assert((((flags & 0b0000_1111u8) as u16) << 8) | (low as u16) == (flags % 16) * 256 + low)
        by (bit_vector);
    (((flags & FLAG_NAME_HIGH) as u16) << 8) | (low as u16)
}

/// Whether the first extended byte asks to leave the entry out of the
/// working tree.
pub open spec fn spec_skip_worktree(extended_high: u8) -> bool {
    extended_high & EXTENDED_SKIP_WORKTREE != 0
}

/// Whether the first extended byte asks to leave the entry out of the
/// working tree.
#[verifier::when_used_as_spec(spec_skip_worktree)]
pub fn skip_worktree(extended_high: u8) -> (set: bool)
    ensures
        set == spec_skip_worktree(extended_high),
        set == (extended_high / 64 % 2 == 1),
{
    assert((extended_high & 0b0100_0000u8 != 0) == (extended_high / 64 % 2 == 1)) by (bit_vector);
    extended_high & EXTENDED_SKIP_WORKTREE != 0
}

/// Whether the first extended byte says that the path is to be added later.
pub open spec fn spec_intent_to_add(extended_high: u8) -> bool {
    extended_high & EXTENDED_INTENT_TO_ADD != 0
}

/// Whether the first extended byte says that the path is to be added later.
#[verifier::when_used_as_spec(spec_intent_to_add)]
pub fn intent_to_add(extended_high: u8) -> (set: bool)
    ensures
        set == spec_intent_to_add(extended_high),
        set == (extended_high / 32 % 2 == 1),
{
    assert((extended_high & 0b0010_0000u8 != 0) == (extended_high / 32 % 2 == 1)) by (bit_vector);
    extended_high & EXTENDED_INTENT_TO_ADD != 0
}

/// Whether every bit of the two extended bytes that carries nothing is zero.
pub open spec fn spec_reserved_clear(extended_high: u8, extended_low: u8) -> bool {
    extended_high & EXTENDED_RESERVED == 0 && extended_low == 0
}

/// Whether every bit of the two extended bytes that carries nothing is zero.
#[verifier::when_used_as_spec(spec_reserved_clear)]
pub fn reserved_clear(extended_high: u8, extended_low: u8) -> (clear: bool)
    ensures
        clear == spec_reserved_clear(extended_high, extended_low),
        clear == (extended_low == 0 && extended_high % 32 == 0 && extended_high < 128),
{
    assert((extended_high & 0b1001_1111u8 == 0) == (extended_high % 32 == 0 && extended_high
        < 128)) by (bit_vector);
    extended_high & EXTENDED_RESERVED == 0 && extended_low == 0
}

/// The number of bytes that follow a record of `entry_size` bytes, name and
/// terminator included, before the next record starts: from one to eight,
/// so that the whole is a multiple of eight.
pub open spec fn spec_padding_after(entry_size: int) -> int {
    8 - entry_size % 8
}

/// The number of bytes that follow a record of `entry_size` bytes, name and
/// terminator included, before the next record starts.
pub fn padding_after(entry_size: usize) -> (padding: usize)
    ensures
        padding == spec_padding_after(entry_size as int),
        1 <= padding <= 8,
        (entry_size + padding) % 8 == 0,
{
    8 - entry_size % 8
}

} // verus!
