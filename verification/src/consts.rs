//! Storage type codes and property flag bits of the schema model.

#![allow(non_upper_case_globals)]

use vstd::prelude::*;

verus! {

/// The code of a property's storage type.
pub type OBXPropertyType = u32;

/// A bit set of property flags.
pub type OBXPropertyFlags = u32;

pub const OBXPropertyType_Bool: u32 = 1;

pub const OBXPropertyType_Byte: u32 = 2;

pub const OBXPropertyType_Short: u32 = 3;

pub const OBXPropertyType_Char: u32 = 4;

pub const OBXPropertyType_Int: u32 = 5;

pub const OBXPropertyType_Long: u32 = 6;

pub const OBXPropertyType_Float: u32 = 7;

pub const OBXPropertyType_Double: u32 = 8;

pub const OBXPropertyType_String: u32 = 9;

pub const OBXPropertyType_Date: u32 = 10;

pub const OBXPropertyType_Relation: u32 = 11;

pub const OBXPropertyType_DateNano: u32 = 12;

pub const OBXPropertyType_ByteVector: u32 = 23;

pub const OBXPropertyType_StringVector: u32 = 30;

/// The property is the record's identifier.
pub const OBXPropertyFlags_ID: u32 = 1;

/// The property carries a plain value index.
pub const OBXPropertyFlags_INDEXED: u32 = 8;

/// The property's values are unique.
pub const OBXPropertyFlags_UNIQUE: u32 = 32;

/// The identifier may be assigned by the caller.
pub const OBXPropertyFlags_ID_SELF_ASSIGNABLE: u32 = 128;

/// Identifier value zero is left out of the index.
pub const OBXPropertyFlags_INDEX_PARTIAL_SKIP_ZERO: u32 = 512;

/// The property carries a 32-bit hashed index.
pub const OBXPropertyFlags_INDEX_HASH: u32 = 2048;

/// The property carries a 64-bit hashed index.
pub const OBXPropertyFlags_INDEX_HASH64: u32 = 4096;

/// The property's integer values are unsigned.
pub const OBXPropertyFlags_UNSIGNED: u32 = 8192;

/// On a unique-constraint conflict the existing record is replaced.
pub const OBXPropertyFlags_UNIQUE_ON_CONFLICT_REPLACE: u32 = 32768;

} // verus!
