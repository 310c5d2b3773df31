//! The numbers of the One ROM protocol.

use vstd::prelude::*;

verus! {

/// Length of the knock that opens a session.
pub const KNOCK_LEN: usize = 6;

/// Header offsets inside the back-channel region: the last group and command,
/// the token, the progress byte and the response byte.
pub const HDR_LAST_G: u32 = 0;

pub const HDR_LAST_C: u32 = 1;

pub const HDR_TOK_LO: u32 = 2;

pub const HDR_TOK_HI: u32 = 3;

pub const HDR_PROG: u32 = 4;

pub const HDR_RESP: u32 = 5;

/// Size of the header; the data area follows it.
pub const HDR_SIZE: u32 = 8;

/// Command groups.
pub const G_CONTROL: u8 = 0x00;

pub const G_READ: u8 = 0x01;

pub const G_MODIFY: u8 = 0x02;

pub const G_NV: u8 = 0x03;

pub const G_RESET: u8 = 0xAA;

/// Commands of the control group.
pub const NOP: u8 = 0x00;

pub const ENTER_CMD_RESP: u8 = 0x01;

pub const EXIT_CMD_RESP: u8 = 0x02;

pub const EXIT_CMD_RESP_SILENT: u8 = 0x03;

pub const SWITCH_AND_EXIT: u8 = 0x04;

pub const LOAD_AND_EXIT: u8 = 0x05;

pub const EXIT_CMD_RESP_RESTORE: u8 = 0x06;

/// Commands of the read group.
pub const FLASH_SLOT_INFO: u8 = 0x01;

pub const FLASH_SLOT_INFO_ALL: u8 = 0x02;

pub const RAM_SLOT_INFO_ALL: u8 = 0x03;

pub const DEVICE_NAME: u8 = 0x04;

pub const FIRMWARE_VERSION: u8 = 0x05;

pub const PROTOCOL_VERSION: u8 = 0x06;

pub const SLOT_PEEK: u8 = 0x07;

pub const BOOT_INFO: u8 = 0x08;

/// Commands of the modify group.
pub const SLOT_POKE: u8 = 0x00;

pub const SWITCH_SLOT: u8 = 0x01;

pub const LOAD_SLOT: u8 = 0x02;

pub const SLOT_POKE_ALL_BYTE: u8 = 0x03;

/// Commands of the NV group.
pub const NV_INFO: u8 = 0x00;

pub const NV_PEEK: u8 = 0x01;

pub const NV_POKE_BEGIN: u8 = 0x02;

pub const NV_POKE: u8 = 0x03;

pub const NV_POKE_COMMIT: u8 = 0x04;

pub const NV_POKE_CANCEL: u8 = 0x05;

pub const NV_POKE_COMMIT_BYTE: u8 = 0x06;

/// The command of the reset group that answers nothing.
pub const RESET: u8 = 0xAA;

/// A reserved protocol value. A device that does not know an answer reports it,
/// so it is never accepted as a slot number.
pub const RESERVED_AA: u8 = 0xAA;

/// RAM slots and flash slots a device has room for.
pub const NRAM: usize = 4;

pub const NFLASH: usize = 16;

/// Bytes of non-volatile storage.
pub const NV_SIZE: usize = 4096;

/// The knock: `!RBCP!`.
pub open spec fn knock() -> Seq<u8> {
    seq![0x21u8, 0x52u8, 0x42u8, 0x43u8, 0x50u8, 0x21u8]
}

/// One byte of the knock.
pub fn knock_byte(i: usize) -> (b: u8)
    requires
        i < KNOCK_LEN,
    ensures
        b == knock()[i as int],
{
    let bytes: [u8; 6] = [0x21, 0x52, 0x42, 0x43, 0x50, 0x21];
    bytes[i]
}

/// How many argument bytes command `c` of group `g` takes.
pub open spec fn argument_count(g: u8, c: u8) -> int {
    if g == G_CONTROL {
        if c == ENTER_CMD_RESP || c == EXIT_CMD_RESP_RESTORE {
            9
        } else if c == SWITCH_AND_EXIT {
            1
        } else if c == LOAD_AND_EXIT {
            2
        } else {
            0
        }
    } else if g == G_READ {
        if c == FLASH_SLOT_INFO {
            1
        } else if c == SLOT_PEEK {
            5
        } else {
            0
        }
    } else if g == G_NV {
        if c == NV_PEEK || c == NV_POKE {
            3
        } else if c == NV_POKE_BEGIN {
            1
        } else if c == NV_POKE_COMMIT_BYTE {
            4
        } else {
            0
        }
    } else if g == G_MODIFY {
        if c == SLOT_POKE {
            5
        } else if c == SWITCH_SLOT {
            1
        } else if c == LOAD_SLOT || c == SLOT_POKE_ALL_BYTE {
            2
        } else {
            0
        }
    } else {
        0
    }
}

/// Arguments a command consumes before it executes. An unknown command consumes
/// nothing, which is how a desynchronised session stays desynchronised rather
/// than silently swallowing the bytes that follow.
pub fn arg_count(g: u8, c: u8) -> (n: usize)
    ensures
        n == argument_count(g, c),
{
    match g {
        0x00 => match c {
            0x01 => 9,
            0x04 => 1,
            0x05 => 2,
            0x06 => 9,
            _ => 0,
        },
        0x01 => match c {
            0x01 => 1,
            0x07 => 5,
            _ => 0,
        },
        0x03 => match c {
            0x01 => 3,
            0x02 => 1,
            0x03 => 3,
            0x06 => 4,
            _ => 0,
        },
        0x02 => match c {
            0x00 => 5,
            0x01 => 1,
            0x02 => 2,
            0x03 => 2,
            _ => 0,
        },
        _ => 0,
    }
}

/// The commands that leave without updating the response header.
pub open spec fn silent(g: u8, c: u8) -> bool {
    ||| g == G_RESET && c == RESET
    ||| g == G_CONTROL && (c == EXIT_CMD_RESP_SILENT || c == SWITCH_AND_EXIT || c == LOAD_AND_EXIT
        || c == EXIT_CMD_RESP_RESTORE)
}

/// Commands that exit without updating the response header, so that a host must
/// not wait for a completion that will never be written. Entering is not one of
/// them.
pub fn cmd_is_silent(g: u8, c: u8) -> (r: bool)
    ensures
        r == silent(g, c),
{
    match g {
        0xAA => c == RESET,
        0x00 => c == EXIT_CMD_RESP_SILENT || c == SWITCH_AND_EXIT || c == LOAD_AND_EXIT || c
            == EXIT_CMD_RESP_RESTORE,
        _ => false,
    }
}

/// The ROM-type byte that stands for a part of `size` bytes: 28C16, 28C64,
/// 28C256, 28C512, or 0xFF for no opinion.
pub open spec fn rom_type(size: int) -> u8 {
    if size == 2048 {
        0x1A
    } else if size == 8192 {
        0x1B
    } else if size == 32768 {
        0x1C
    } else if size == 65536 {
        0x1D
    } else {
        0xFF
    }
}

/// The ROM-type byte a device of this size must report. A host checks its
/// configured size against it, so it has to name the part that is served; 0xFF
/// leaves the host's figure standing.
pub fn rom_type_for(size: u32) -> (t: u8)
    ensures
        t == rom_type(size as int),
{
    match size {
        2048 => 0x1A,
        8192 => 0x1B,
        32768 => 0x1C,
        65536 => 0x1D,
        _ => 0xFF,
    }
}

/// The name a flash slot goes by: `macmon`, `Macintosh Plus ROM`, `MacGrub`, and
/// `slot` for any other.
pub open spec fn slot_name(slot: int) -> Seq<u8> {
    if slot == 0 {
        seq![0x6Du8, 0x61u8, 0x63u8, 0x6Du8, 0x6Fu8, 0x6Eu8]
    } else if slot == 1 {
        seq![
            0x4Du8,
            0x61u8,
            0x63u8,
            0x69u8,
            0x6Eu8,
            0x74u8,
            0x6Fu8,
            0x73u8,
            0x68u8,
            0x20u8,
            0x50u8,
            0x6Cu8,
            0x75u8,
            0x73u8,
            0x20u8,
            0x52u8,
            0x4Fu8,
            0x4Du8,
        ]
    } else if slot == 2 {
        seq![0x4Du8, 0x61u8, 0x63u8, 0x47u8, 0x72u8, 0x75u8, 0x62u8]
    } else {
        seq![0x73u8, 0x6Cu8, 0x6Fu8, 0x74u8]
    }
}

fn name_of(slot: usize) -> (name: Vec<u8>)
    ensures
        name@ == slot_name(slot as int),
        name@.len() <= 31,
{
    match slot {
        0 => vec![0x6Du8, 0x61u8, 0x63u8, 0x6Du8, 0x6Fu8, 0x6Eu8],
        1 => vec![
            0x4Du8, 0x61u8, 0x63u8, 0x69u8, 0x6Eu8, 0x74u8, 0x6Fu8, 0x73u8, 0x68u8, 0x20u8, 0x50u8, 0x6Cu8, 0x75u8, 0x73u8,
            0x20u8, 0x52u8, 0x4Fu8, 0x4Du8,
        ],
        2 => vec![0x4Du8, 0x61u8, 0x63u8, 0x47u8, 0x72u8, 0x75u8, 0x62u8],
        _ => vec![0x73u8, 0x6Cu8, 0x6Fu8, 0x74u8],
    }
}

/// The record of a flash slot: 32 bytes, the ROM type first, then the name,
/// padded with NUL.
pub open spec fn flash_record(slot: int, size: int) -> Seq<u8> {
    Seq::new(
        32,
        |i: int|
            if i == 0 {
                rom_type(size)
            } else if i - 1 < slot_name(slot).len() {
                slot_name(slot)[i - 1]
            } else {
                0u8
            },
    )
}

/// A 32-byte flash slot record: ROM type at 0, then a NUL-padded name from
/// byte 1.
pub fn slot_record(slot: usize, size: u32) -> (rec: [u8; 32])
    ensures
        rec@ == flash_record(slot as int, size as int),
{
    let mut rec: [u8; 32] = [0u8; 32];
    rec[0] = rom_type_for(size);
    let name = name_of(slot);
    let mut i: usize = 0;
    while i < name.len()
        invariant
            i <= name@.len() <= 31,
            name@ == slot_name(slot as int),
            rec@.len() == 32,
            rec@[0] == rom_type(size as int),
            forall|j: int| 1 <= j <= i ==> rec@[j] == name@[j - 1],
            forall|j: int| i < j < 32 ==> rec@[j] == 0,
        decreases name.len() - i,
    {
        rec[i + 1] = name[i];
        i = i + 1;
    }
    assert(rec@ =~= flash_record(slot as int, size as int));
    rec
}

/// The device name a device reports: `ONEROM-MODEL`, NUL-terminated.
pub open spec fn device_name() -> Seq<u8> {
    seq![0x4Fu8, 0x4Eu8, 0x45u8, 0x52u8, 0x4Fu8, 0x4Du8, 0x2Du8, 0x4Du8, 0x4Fu8, 0x44u8, 0x45u8, 0x4Cu8, 0u8]
}

/// The firmware version a device reports: `0.0.0`, NUL-terminated.
pub open spec fn firmware_version() -> Seq<u8> {
    seq![0x30u8, 0x2Eu8, 0x30u8, 0x2Eu8, 0x30u8, 0u8]
}

/// The protocol version a device reports: 0.1.2.
pub open spec fn protocol_version() -> Seq<u8> {
    seq![0u8, 1u8, 2u8]
}

} // verus!
