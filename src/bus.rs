//! The outgoing side of the bus: instructions waiting to be framed and transmitted.
use vstd::prelude::*;
use crate::bulk_write::{encode_block, encode_parameters, first_error, BulkWriteData, WriteError};

verus! {

/// The packet id that addresses every device on the bus.
pub const BROADCAST_ID: u8 = 0xFE;

/// The instruction id of a bulk write.
pub const BULK_WRITE: u8 = 0x93;

/// An instruction ready to be framed and sent: its target, its kind and its parameter block.
#[derive(Debug)]
pub struct Instruction {
    pub packet_id: u8,
    pub instruction_id: u8,
    pub parameters: Vec<u8>,
}

/// A bus handle. Instructions are queued in `outgoing`, in the order they were written,
/// for the transport to frame and transmit.
#[derive(Debug)]
pub struct Bus {
    pub outgoing: Vec<Instruction>,
}

impl Bus {
    /// A bus with nothing queued.
    pub fn new() -> (bus: Bus)
        ensures
            bus.outgoing@.len() == 0,
    {
        Bus { outgoing: Vec::new() }
    }

    /// Queues an instruction for `packet_id` with the given parameter block.
    pub fn write_instruction(&mut self, packet_id: u8, instruction_id: u8, parameters: Vec<u8>)
        ensures
            final(self).outgoing@ == old(self).outgoing@.push(
                (Instruction { packet_id, instruction_id, parameters }),
            ),
    {
        self.outgoing.push(Instruction { packet_id, instruction_id, parameters });
    }

    /// Writes a different range of registers on each of several motors, in one broadcast
    /// instruction.
    ///
    /// Each motor performs its write as soon as it receives the instruction. On success
    /// one bulk write instruction is queued, whose parameter block holds one entry per write,
    /// in the order given. A write whose data does not fit the 16-bit length field, or
    /// that targets a motor already targeted by an earlier write, is refused, and then
    /// nothing is queued.
    pub fn bulk_write(&mut self, writes: &[BulkWriteData]) -> (r: Result<(), WriteError>)
        ensures
            match r {
                Ok(()) => {
                    &&& first_error(writes@) is None
                    &&& final(self).outgoing@.len() == old(self).outgoing@.len() + 1
                    &&& final(self).outgoing@.drop_last() == old(self).outgoing@
                    &&& final(self).outgoing@.last().packet_id == BROADCAST_ID
                    &&& final(self).outgoing@.last().instruction_id == BULK_WRITE
                    &&& final(self).outgoing@.last().parameters@ == encode_block(writes@)
                },
                Err(e) => first_error(writes@) == Some(e) && *final(self) == *old(self),
            },
    {
        let parameters = match encode_parameters(writes) {
            Ok(parameters) => parameters,
            Err(e) => return Err(e),
        };
        self.write_instruction(BROADCAST_ID, BULK_WRITE, parameters);
        proof {
            assert(self.outgoing@.drop_last() =~= old(self).outgoing@);
        }
        Ok(())
    }
}

} // verus!
