//! Recognition of the synthesizer's SysEx payloads: the manufacturer and
//! device identifier prefix, and the opcode byte that selects the
//! operation. Unknown opcodes are rejected, never coerced.

use vstd::prelude::*;

verus! {

use vstd::slice::slice_subrange;

/// A6 System Exclusive message types.
#[derive(Clone, Copy, PartialEq, Eq, Structural, Debug)]
pub enum Opcode {
    Pgm,
    PgmReq,
    PgmEditBuf,
    PgmEditBufReq,
    Mix,
    MixReq,
    MixEditBuf,
    MixEditBufReq,
    GlobalData,
    GlobalDataReq,
    PgmBankReq,
    MixBankReq,
    AllReq,
    Mode,
    Edit,
    OsBlock,
    BootBlock,
}

/// The opcode selected by the wire byte `b`, if the device defines one.
pub open spec fn spec_opcode_of(b: u8) -> Option<Opcode> {
    if b == 0x00 {
        Some(Opcode::Pgm)
    } else if b == 0x01 {
        Some(Opcode::PgmReq)
    } else if b == 0x02 {
        Some(Opcode::PgmEditBuf)
    } else if b == 0x03 {
        Some(Opcode::PgmEditBufReq)
    } else if b == 0x04 {
        Some(Opcode::Mix)
    } else if b == 0x05 {
        Some(Opcode::MixReq)
    } else if b == 0x06 {
        Some(Opcode::MixEditBuf)
    } else if b == 0x07 {
        Some(Opcode::MixEditBufReq)
    } else if b == 0x08 {
        Some(Opcode::GlobalData)
    } else if b == 0x09 {
        Some(Opcode::GlobalDataReq)
    } else if b == 0x0A {
        Some(Opcode::PgmBankReq)
    } else if b == 0x0B {
        Some(Opcode::MixBankReq)
    } else if b == 0x0C {
        Some(Opcode::AllReq)
    } else if b == 0x0D {
        Some(Opcode::Mode)
    } else if b == 0x0E {
        Some(Opcode::Edit)
    } else if b == 0x30 {
        Some(Opcode::OsBlock)
    } else if b == 0x3F {
        Some(Opcode::BootBlock)
    } else {
        None
    }
}

/// True iff `s` opens with the manufacturer/device identifier bytes.
pub open spec fn spec_has_id(s: Seq<u8>) -> bool {
    s.len() >= 4 && s[0] == 0x00 && s[1] == 0x00 && s[2] == 0x0E && s[3] == 0x1D
}

/// Recognizes an A6 SysEx message payload: the 4-byte manufacturer/device
/// identifier, one defined opcode byte, then the operation's data.
///
/// Returns the opcode and the data exactly when the identifier matches, an
/// opcode byte is present and the device defines it; everything else is
/// `None`.
pub fn recognize_sysex(msg: &[u8]) -> (r: Option<(Opcode, &[u8])>)
    ensures
        r is Some <==> (spec_has_id(msg@) && msg@.len() > 4 && spec_opcode_of(msg@[4]) is Some),
        match r {
            Some(rec) => {
                &&& Some(rec.0) == spec_opcode_of(msg@[4])
                &&& rec.1@ == msg@.subrange(5, msg@.len() as int)
            },
            None => true,
        },
{
    if msg.len() <= 4 {
        return None;
    }
    if !(msg[0] == 0x00 && msg[1] == 0x00 && msg[2] == 0x0E && msg[3] == 0x1D) {
        return None;
    }
    let op = match msg[4] {
        0x00 => Opcode::Pgm,
        0x01 => Opcode::PgmReq,
        0x02 => Opcode::PgmEditBuf,
        0x03 => Opcode::PgmEditBufReq,
        0x04 => Opcode::Mix,
        0x05 => Opcode::MixReq,
        0x06 => Opcode::MixEditBuf,
        0x07 => Opcode::MixEditBufReq,
        0x08 => Opcode::GlobalData,
        0x09 => Opcode::GlobalDataReq,
        0x0A => Opcode::PgmBankReq,
        0x0B => Opcode::MixBankReq,
        0x0C => Opcode::AllReq,
        0x0D => Opcode::Mode,
        0x0E => Opcode::Edit,
        0x30 => Opcode::OsBlock,
        0x3F => Opcode::BootBlock,
        _ => {
            return None;
        },
    };
    let data = slice_subrange(msg, 5, msg.len());
    Some((op, data))
}

} // verus!
