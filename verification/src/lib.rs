use vstd::prelude::*;

pub mod bitarray;
pub mod databuffer;
pub mod datafifo;
pub mod disk;
pub mod multicast;
pub mod packet;
pub mod receiver;
pub mod sender;
pub mod slice;
pub mod statistics;
pub mod wire;

verus! {

/// Loop status meaning "keep going".
pub const RUNNING: bool = true;

/// Loop status meaning "stop".
pub const ENDLOOP: bool = false;

/// Size of one disk sector in bytes.
pub const SECTOR_SIZE: usize = 512;

/// Unit of disk transfers in bytes.
pub const CHUNK_SIZE: usize = SECTOR_SIZE * 512;

/// Default size of one disk read.
pub const READ_CHUNK: usize = CHUNK_SIZE * 16;

/// Default size of one disk write.
pub const WRITE_CHUNK: usize = CHUNK_SIZE * 16;

/// Smallest capacity of the data FIFO, and the amount the sender keeps filled.
pub const MAX_BUFFER_SIZE: usize = CHUNK_SIZE * 32;

/// Payload bytes carried by one data block.
pub const BLOCK_SIZE: u32 = 512 * 3;

/// Size of the datagram buffers.
pub const UDP_PACK_SIZE: usize = 2048;

/// Largest number of receivers a sender serves.
pub const MAX_CLIENTS: u32 = 1024;

/// Largest number of blocks in one slice.
pub const MAX_SLICE_SIZE: u32 = 2048;

/// Bits stored per byte of a bit map.
pub const BITS_PER_CHAR: u32 = 8;

pub const CAP_NEW_GEN: u32 = 0x0001;

pub const CAP_BIG_ENDIAN: u32 = 0x0008;

pub const CAP_LITTLE_ENDIAN: u32 = 0x0010;

pub const CAP_ASYNC: u32 = 0x0020;

pub const SENDER_CAPABILITIES: u32 = CAP_NEW_GEN | CAP_BIG_ENDIAN;

pub const RECEIVER_CAPABILITIES: u32 = CAP_NEW_GEN | CAP_BIG_ENDIAN;

pub const FLAG_PASSIVE: u16 = 0x0010;

pub const FLAG_NOSYNC: u16 = 0x0040;

pub const FLAG_NOKBD: u16 = 0x0080;

pub const FLAG_SYNC: u16 = 0x0100;

pub const FLAG_STREAMING: u16 = 0x200;

pub const FLAG_IGNORE_LOST_DATA: u16 = 0x400;

/// First UDP port of the protocol; the sender listens one above it.
pub const PORTBASE: u16 = 9000;

} // verus!
