use dynamixel2::bulk_write::{encode_parameters, fill_parameters, parameter_count, BulkWriteData, WriteError};
use dynamixel2::bus::{Bus, BROADCAST_ID, BULK_WRITE};
use dynamixel2::endian::{write_u16_le, write_u8};

fn write(motor_id: u8, address: u16, data: &[u8]) -> BulkWriteData {
    BulkWriteData { motor_id, address, data: data.to_vec() }
}

#[test]
fn two_motors_block() {
    let writes = vec![
        write(1, 116, &2000u32.to_le_bytes()),
        write(2, 102, &300u16.to_le_bytes()),
    ];
    let mut bus = Bus::new();
    assert_eq!(bus.bulk_write(&writes), Ok(()));
    assert_eq!(bus.outgoing.len(), 1);
    let instruction = &bus.outgoing[0];
    assert_eq!(instruction.packet_id, BROADCAST_ID);
    assert_eq!(instruction.instruction_id, BULK_WRITE);
    assert_eq!(
        instruction.parameters,
        vec![0x01, 0x74, 0x00, 0x04, 0x00, 0xD0, 0x07, 0x00, 0x00, 0x02, 0x66, 0x00, 0x02, 0x00, 0x2C, 0x01]
    );
}

#[test]
fn zero_length_payload_is_legal() {
    let writes = vec![write(5, 10, &[])];
    assert_eq!(encode_parameters(&writes), Ok(vec![0x05, 0x0A, 0x00, 0x00, 0x00]));
}

#[test]
fn empty_input_gives_empty_block() {
    let writes: Vec<BulkWriteData> = Vec::new();
    assert_eq!(parameter_count(&writes), Ok(0));
    assert_eq!(encode_parameters(&writes), Ok(Vec::new()));
    let mut bus = Bus::new();
    assert_eq!(bus.bulk_write(&writes), Ok(()));
    assert_eq!(bus.outgoing.len(), 1);
    assert!(bus.outgoing[0].parameters.is_empty());
}

#[test]
fn duplicate_motor_id_is_refused_and_nothing_is_queued() {
    let writes = vec![write(3, 1, &[1]), write(4, 2, &[2, 3]), write(3, 5, &[])];
    assert_eq!(encode_parameters(&writes), Err(WriteError::DuplicateMotorId { motor_id: 3 }));
    let mut bus = Bus::new();
    assert_eq!(bus.bulk_write(&writes), Err(WriteError::DuplicateMotorId { motor_id: 3 }));
    assert!(bus.outgoing.is_empty());
}

#[test]
fn first_repeated_id_is_reported() {
    let writes = vec![write(1, 0, &[]), write(2, 0, &[]), write(2, 0, &[]), write(1, 0, &[])];
    assert_eq!(parameter_count(&writes), Err(WriteError::DuplicateMotorId { motor_id: 2 }));
}

#[test]
fn oversized_data_is_refused() {
    let big = vec![0u8; 65536];
    let writes = vec![write(1, 0, &[9]), write(7, 64, &big)];
    assert_eq!(encode_parameters(&writes), Err(WriteError::DataTooLarge { motor_id: 7, length: 65536 }));
    let mut bus = Bus::new();
    assert_eq!(bus.bulk_write(&writes), Err(WriteError::DataTooLarge { motor_id: 7, length: 65536 }));
    assert!(bus.outgoing.is_empty());
}

#[test]
fn oversized_data_is_reported_before_a_repeated_id() {
    let big = vec![0u8; 70000];
    let writes = vec![write(1, 0, &[]), write(1, 0, &big)];
    assert_eq!(parameter_count(&writes), Err(WriteError::DataTooLarge { motor_id: 1, length: 70000 }));
}

#[test]
fn earlier_refusal_wins_over_later_oversized_data() {
    let big = vec![0u8; 65536];
    let writes = vec![write(1, 0, &[]), write(1, 0, &[]), write(2, 0, &big)];
    assert_eq!(parameter_count(&writes), Err(WriteError::DuplicateMotorId { motor_id: 1 }));
}

#[test]
fn largest_data_length_is_accepted() {
    let data: Vec<u8> = (0..65535u32).map(|i| (i % 251) as u8).collect();
    let writes = vec![write(9, 0x1234, &data)];
    assert_eq!(parameter_count(&writes), Ok(65540));
    let block = encode_parameters(&writes).unwrap();
    assert_eq!(block.len(), 65540);
    assert_eq!(&block[..5], &[0x09, 0x34, 0x12, 0xFF, 0xFF]);
    assert_eq!(&block[5..], &data[..]);
}

#[test]
fn block_length_is_sum_of_entry_sizes() {
    let writes = vec![write(1, 0, &[1, 2, 3]), write(2, 0, &[]), write(3, 0, &[4; 10])];
    assert_eq!(parameter_count(&writes), Ok(8 + 5 + 15));
    assert_eq!(encode_parameters(&writes).unwrap().len(), 28);
}

#[test]
fn every_motor_id_once_is_accepted() {
    let writes: Vec<BulkWriteData> = (0..=255u8).map(|id| write(id, id as u16 * 3, &[id, id])).collect();
    assert_eq!(parameter_count(&writes), Ok(256 * 7));
    let block = encode_parameters(&writes).unwrap();
    assert_eq!(block.len(), 256 * 7);
    assert_eq!(&block[7 * 200..7 * 201], &[200, 0x58, 0x02, 0x02, 0x00, 200, 200]);
}

#[test]
fn decoding_the_block_gives_the_writes_in_order() {
    let writes = vec![
        write(7, 0x0102, &[0xAA, 0xBB, 0xCC]),
        write(2, 600, &[]),
        write(200, 0xFFFF, &[0x01]),
        write(0, 0, &[5, 6]),
    ];
    let block = encode_parameters(&writes).unwrap();
    let mut decoded = Vec::new();
    let mut offset = 0;
    while offset < block.len() {
        let motor_id = block[offset];
        let address = u16::from_le_bytes([block[offset + 1], block[offset + 2]]);
        let len = u16::from_le_bytes([block[offset + 3], block[offset + 4]]) as usize;
        let data = block[offset + 5..offset + 5 + len].to_vec();
        decoded.push(BulkWriteData { motor_id, address, data });
        offset += 5 + len;
    }
    assert_eq!(offset, block.len());
    assert_eq!(decoded, writes);
}

#[test]
fn fill_writes_entries_into_an_exact_buffer() {
    let writes = vec![write(4, 0x0A0B, &[1, 2]), write(6, 3, &[9])];
    let mut buffer = vec![0xEEu8; 13];
    fill_parameters(&mut buffer, &writes);
    assert_eq!(buffer, vec![4, 0x0B, 0x0A, 2, 0, 1, 2, 6, 3, 0, 1, 0, 9]);
}

#[test]
fn bulk_write_appends_after_queued_instructions() {
    let mut bus = Bus::new();
    bus.write_instruction(1, 0x03, vec![10, 20]);
    assert_eq!(bus.bulk_write(&[write(1, 2, &[3])]), Ok(()));
    assert_eq!(bus.outgoing.len(), 2);
    assert_eq!(bus.outgoing[0].packet_id, 1);
    assert_eq!(bus.outgoing[0].instruction_id, 0x03);
    assert_eq!(bus.outgoing[0].parameters, vec![10, 20]);
    assert_eq!(bus.outgoing[1].parameters, vec![1, 2, 0, 1, 0, 3]);
}

#[test]
fn little_endian_writers() {
    let mut buffer = [0u8; 4];
    write_u8(&mut buffer, 0, 0x7F);
    write_u16_le(&mut buffer, 1, 0xBEEF);
    assert_eq!(buffer, [0x7F, 0xEF, 0xBE, 0x00]);
    write_u16_le(&mut buffer, 2, 0x0100);
    assert_eq!(buffer, [0x7F, 0xEF, 0x00, 0x01]);
}
