//! Wire-level constants of the memcached binary protocol: packet magic
//! bytes, the opcode of each command, and the server status codes.

use vstd::prelude::*;

verus! {

/// First byte of every request packet.
pub const MAGIC_REQUEST: u8 = 0x80;

/// First byte of every response packet; anything else is a framing error.
pub const MAGIC_RESPONSE: u8 = 0x81;

/// Status code of a successful response.
pub const OK_STATUS: u16 = 0x0;

/// Opcode of the `get` command.
pub const OP_GET: u8 = 0x00;

/// Opcode of the `set` command (also used for `cas`, with the cas field set).
pub const OP_SET: u8 = 0x01;

/// Opcode of the `add` command.
pub const OP_ADD: u8 = 0x02;

/// Opcode of the `replace` command.
pub const OP_REPLACE: u8 = 0x03;

/// Opcode of the `delete` command.
pub const OP_DELETE: u8 = 0x04;

/// Opcode of the `increment` command.
pub const OP_INCREMENT: u8 = 0x05;

/// Opcode of the `decrement` command.
pub const OP_DECREMENT: u8 = 0x06;

/// Opcode of the `flush` command.
pub const OP_FLUSH: u8 = 0x08;

/// Opcode of the `stat` command.
pub const OP_STAT: u8 = 0x10;

/// Opcode of the `noop` command, used to terminate a pipelined multi-get.
pub const OP_NOOP: u8 = 0x0a;

/// Opcode of the `version` command.
pub const OP_VERSION: u8 = 0x0b;

/// Opcode of the quiet `get-with-key` command, pipelined by multi-get.
pub const OP_GETKQ: u8 = 0x0d;

/// Opcode of the `append` command.
pub const OP_APPEND: u8 = 0x0e;

/// Opcode of the `prepend` command.
pub const OP_PREPEND: u8 = 0x0f;

/// Opcode of the `touch` command.
pub const OP_TOUCH: u8 = 0x1c;

/// Opcode of the SASL authentication start command.
pub const OP_START_AUTH: u8 = 0x21;

} // verus!
