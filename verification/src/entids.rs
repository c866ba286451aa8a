//! The well-known entids of the self-describing schema: the attributes
//! and values a transaction uses to install or alter schema attributes.

use vstd::prelude::*;

verus! {

pub const DB_IDENT: i64 = 1;
pub const DB_TX_INSTANT: i64 = 2;
pub const DB_INSTALL_PARTITION: i64 = 3;
pub const DB_INSTALL_VALUE_TYPE: i64 = 4;
pub const DB_INSTALL_ATTRIBUTE: i64 = 5;
pub const DB_VALUE_TYPE: i64 = 6;
pub const DB_CARDINALITY: i64 = 7;
pub const DB_UNIQUE: i64 = 8;
pub const DB_IS_COMPONENT: i64 = 9;
pub const DB_INDEX: i64 = 10;
pub const DB_FULLTEXT: i64 = 11;
pub const DB_NO_HISTORY: i64 = 12;
pub const DB_ADD: i64 = 13;
pub const DB_RETRACT: i64 = 14;
pub const DB_PART_USER: i64 = 15;
pub const DB_PART_TX: i64 = 16;
pub const DB_EXCISE: i64 = 17;
pub const DB_TYPE_REF: i64 = 23;
pub const DB_TYPE_KEYWORD: i64 = 24;
pub const DB_TYPE_LONG: i64 = 25;
pub const DB_TYPE_DOUBLE: i64 = 26;
pub const DB_TYPE_STRING: i64 = 27;
pub const DB_TYPE_UUID: i64 = 28;
pub const DB_TYPE_URI: i64 = 29;
pub const DB_TYPE_BOOLEAN: i64 = 30;
pub const DB_TYPE_INSTANT: i64 = 31;
pub const DB_TYPE_BYTES: i64 = 32;
pub const DB_CARDINALITY_ONE: i64 = 33;
pub const DB_CARDINALITY_MANY: i64 = 34;
pub const DB_UNIQUE_VALUE: i64 = 35;
pub const DB_UNIQUE_IDENTITY: i64 = 36;
pub const DB_DOC: i64 = 37;

} // verus!
