//! Tests of the wire message codec, at the byte level.

use devp2p::item::RlpItem;
use devp2p::message::{DecodeError, ETHMessage};

fn hex_bytes(parts: &[&str]) -> Vec<u8> {
    let mut out = Vec::new();
    for part in parts {
        let digits: Vec<u32> = part.chars().map(|c| c.to_digit(16).unwrap()).collect();
        let mut i: usize = 0;
        while i < digits.len() {
            out.push((digits[i] * 16 + digits[i + 1]) as u8);
            i += 2;
        }
    }
    out
}

fn sample_hash(seed: u8) -> Vec<u8> {
    let mut h = Vec::new();
    let mut i: u8 = 0;
    while i < 32 {
        h.push(seed.wrapping_add(i));
        i += 1;
    }
    h
}

#[test]
fn test_new_block_hashes_message() {
    let data = hex_bytes(&[
        "e6e5a00bf2f8fd8ce1fd340915452e175a856ab349e24ceffef9b02d71b4d5c0",
        "bd75c2833ed50c",
    ]);
    ETHMessage::decode(&data, 1).unwrap();
}

#[test]
fn test_get_block_headers_message() {
    let data: [u8; 8] = [199, 131, 29, 76, 0, 1, 128, 128];
    ETHMessage::decode(&data, 3).unwrap();
}

#[test]
fn test_get_block_headers_hash_message() {
    let hash = sample_hash(0x41);
    let message = ETHMessage::GetBlockHeadersByHash {
        hash, max_headers: 2048, skip: 0, reverse: false,
    };
    assert_eq!(message, ETHMessage::decode(&message.encode_bytes(), 3).unwrap());
}

#[test]
fn test_block_headers_message() {
    let data = hex_bytes(&[
        "f90861f90214a000000000000000000000000000000000000000000000000000",
        "00000000000000a01dcc4de8dec75d7aab85b567b6ccd41ad312451b948a7413",
        "f0a142fd40d49347940000000000000000000000000000000000000000a0d7f8",
        "974fb5ac78d9ac099b9ad5018bedc2ce0a72dad1827a1709da30580f0544a056",
        "e81f171bcc55a6ff8345e692c0f86e5b48e01b996cadc001622fb5e363b421a0",
        "56e81f171bcc55a6ff8345e692c0f86e5b48e01b996cadc001622fb5e363b421",
        "b901000000000000000000000000000000000000000000000000000000000000",
        "0000000000000000000000000000000000000000000000000000000000000000",
        "0000000000000000000000000000000000000000000000000000000000000000",
        "0000000000000000000000000000000000000000000000000000000000000000",
        "0000000000000000000000000000000000000000000000000000000000000000",
        "0000000000000000000000000000000000000000000000000000000000000000",
        "0000000000000000000000000000000000000000000000000000000000000000",
        "0000000000000000000000000000000000000000000000000000000000000000",
        "000000850400000000808213888080a011bbe8db4e347b4e8c937c1c8370e4b5",
        "ed33adb3db69cbdb7a38e1e50b1b82faa0000000000000000000000000000000",
        "0000000000000000000000000000000000880000000000000042f90211a0d4e5",
        "6740f876aef8c010b86a40d5f56745a118d0906a34e69aec8c0db1cb8fa3a01d",
        "cc4de8dec75d7aab85b567b6ccd41ad312451b948a7413f0a142fd40d4934794",
        "05a56e2d52c817161883f50c441c3228cfe54d9fa0d67e4d450343046425ae42",
        "71474353857ab860dbc0a1dde64b41b5cd3a532bf3a056e81f171bcc55a6ff83",
        "45e692c0f86e5b48e01b996cadc001622fb5e363b421a056e81f171bcc55a6ff",
        "8345e692c0f86e5b48e01b996cadc001622fb5e363b421b90100000000000000",
        "0000000000000000000000000000000000000000000000000000000000000000",
        "0000000000000000000000000000000000000000000000000000000000000000",
        "0000000000000000000000000000000000000000000000000000000000000000",
        "0000000000000000000000000000000000000000000000000000000000000000",
        "0000000000000000000000000000000000000000000000000000000000000000",
        "0000000000000000000000000000000000000000000000000000000000000000",
        "0000000000000000000000000000000000000000000000000000000000000000",
        "00000000000000000000000000000000000000000000000000008503ff800000",
        "01821388808455ba422499476574682f76312e302e302f6c696e75782f676f31",
        "2e342e32a0969b900de27b6ac6a67742365dd65f55a0526c41fd18e1b16f1a12",
        "15c2e66f5988539bd4979fef1ec4f90218a088e96d4537bea4d9c05d12549907",
        "b32561d3bf31f45aae734cdc119f13406cb6a01dcc4de8dec75d7aab85b567b6",
        "ccd41ad312451b948a7413f0a142fd40d4934794dd2f1e6e498202e86d8f5442",
        "af596580a4f03c2ca04943d941637411107494da9ec8bc04359d731bfd08b72b",
        "4d0edcbd4cd2ecb341a056e81f171bcc55a6ff8345e692c0f86e5b48e01b996c",
        "adc001622fb5e363b421a056e81f171bcc55a6ff8345e692c0f86e5b48e01b99",
        "6cadc001622fb5e363b421b90100000000000000000000000000000000000000",
        "0000000000000000000000000000000000000000000000000000000000000000",
        "0000000000000000000000000000000000000000000000000000000000000000",
        "0000000000000000000000000000000000000000000000000000000000000000",
        "0000000000000000000000000000000000000000000000000000000000000000",
        "0000000000000000000000000000000000000000000000000000000000000000",
        "0000000000000000000000000000000000000000000000000000000000000000",
        "0000000000000000000000000000000000000000000000000000000000000000",
        "00000000000000000000000000008503ff00100002821388808455ba4241a047",
        "6574682f76312e302e302d30636463373634372f6c696e75782f676f312e34a0",
        "2f0790c5aa31ab94195e1f6443d645af5b75c46c04fbf9911711198a0ce8fdda",
        "88b853fa261a86aa9ef90218a0b495a1d7e6663152ae92708da4843337b95814",
        "6015a2802f4193a410044698c9a06b17b938c6e4ef18b26ad81b9ca3515f27fd",
        "9c4e82aac56a1fd8eab288785e41945088d623ba0fcf0131e0897a91734a4d83",
        "596aa0a076ab0b899e8387436ff2658e2988f83cbf1af1590b9fe9feca3714f8",
        "d1824940a056e81f171bcc55a6ff8345e692c0f86e5b48e01b996cadc001622f",
        "b5e363b421a056e81f171bcc55a6ff8345e692c0f86e5b48e01b996cadc00162",
        "2fb5e363b421b901000000000000000000000000000000000000000000000000",
        "0000000000000000000000000000000000000000000000000000000000000000",
        "0000000000000000000000000000000000000000000000000000000000000000",
        "0000000000000000000000000000000000000000000000000000000000000000",
        "0000000000000000000000000000000000000000000000000000000000000000",
        "0000000000000000000000000000000000000000000000000000000000000000",
        "0000000000000000000000000000000000000000000000000000000000000000",
        "0000000000000000000000000000000000000000000000000000000000000000",
        "0000000000000000008503fe802ffe03821388808455ba4260a0476574682f76",
        "312e302e302d66633739643332642f6c696e75782f676f312e34a065e12eec23",
        "fe6555e6bcdb47aa25269ae106e5f16b54e1e92dcee25e1c8ad037882e9344e0",
        "cbde83ce",
    ]);
    assert_eq!(data.len(), 2148);
    ETHMessage::decode(&data, 4).unwrap();
}

#[test]
fn status_round_trips_as_five_item_record() {
    let message = ETHMessage::Status {
        protocol_version: 63,
        network_id: 1,
        total_difficulty: vec![0x12, 0x34],
        best_hash: sample_hash(0x10),
        genesis_hash: sample_hash(0x77),
    };
    match message.encode() {
        RlpItem::List(fields) => assert_eq!(fields.len(), 5),
        RlpItem::Str(_) => panic!("a status record must be a list"),
    }
    assert_eq!(message, ETHMessage::decode(&message.encode_bytes(), 0).unwrap());
}

#[test]
fn get_headers_by_number_round_trips() {
    let message = ETHMessage::GetBlockHeadersByNumber {
        number: vec![0x1d, 0x4c, 0x00],
        max_headers: 1,
        skip: 0,
        reverse: true,
    };
    assert_eq!(message, ETHMessage::decode(&message.encode_bytes(), 3).unwrap());
}

#[test]
fn decoded_sample_get_headers_fields() {
    let data: [u8; 8] = [199, 131, 29, 76, 0, 1, 128, 128];
    let message = ETHMessage::decode(&data, 3).unwrap();
    assert_eq!(
        message,
        ETHMessage::GetBlockHeadersByNumber {
            number: vec![0x1d, 0x4c, 0x00],
            max_headers: 1,
            skip: 0,
            reverse: false,
        }
    );
}

#[test]
fn thirty_two_byte_first_item_always_decodes_by_hash() {
    // A 32-byte first item is taken for a hash, any other width for a number.
    let by_hash = ETHMessage::GetBlockHeadersByHash {
        hash: sample_hash(0x01), max_headers: 7, skip: 2, reverse: true,
    };
    match ETHMessage::decode(&by_hash.encode_bytes(), 3).unwrap() {
        ETHMessage::GetBlockHeadersByHash { .. } => {},
        _ => panic!("a 32-byte first item must decode as the by-hash variant"),
    }
    let by_number = ETHMessage::GetBlockHeadersByNumber {
        number: vec![9], max_headers: 7, skip: 2, reverse: true,
    };
    match ETHMessage::decode(&by_number.encode_bytes(), 3).unwrap() {
        ETHMessage::GetBlockHeadersByNumber { .. } => {},
        _ => panic!("a short first item must decode as the by-number variant"),
    }
}

#[test]
fn reverse_flag_encodes_one_or_zero_and_any_nonzero_decodes_true() {
    let m_true = ETHMessage::GetBlockHeadersByNumber {
        number: vec![5], max_headers: 1, skip: 0, reverse: true,
    };
    match m_true.encode() {
        RlpItem::List(fields) => assert_eq!(fields[3], RlpItem::Str(vec![1])),
        RlpItem::Str(_) => panic!("a header request record must be a list"),
    }
    let m_false = ETHMessage::GetBlockHeadersByNumber {
        number: vec![5], max_headers: 1, skip: 0, reverse: false,
    };
    match m_false.encode() {
        RlpItem::List(fields) => assert_eq!(fields[3], RlpItem::Str(vec![])),
        RlpItem::Str(_) => panic!("a header request record must be a list"),
    }
    // number 5, max_headers 1, skip 0, reverse 2: nonzero decodes as true.
    let data: [u8; 5] = [0xc4, 0x05, 0x01, 0x80, 0x02];
    match ETHMessage::decode(&data, 3).unwrap() {
        ETHMessage::GetBlockHeadersByNumber { reverse, .. } => assert!(reverse),
        _ => panic!("expected the by-number variant"),
    }
}

#[test]
fn empty_list_record_edge_cases() {
    let empty = ETHMessage::NewBlockHashes(vec![]);
    assert_eq!(empty, ETHMessage::decode(&empty.encode_bytes(), 1).unwrap());
    assert_eq!(ETHMessage::Unknown.encode_bytes(), vec![0xc0]);
    assert_eq!(
        ETHMessage::decode(&[0xc0], 1).unwrap(),
        ETHMessage::NewBlockHashes(vec![])
    );
    assert_eq!(
        ETHMessage::decode(&[0xc0], 5).unwrap(),
        ETHMessage::GetBlockBodies(vec![])
    );
}

#[test]
fn unknown_id_decodes_to_unknown_without_error() {
    let data: [u8; 8] = [199, 131, 29, 76, 0, 1, 128, 128];
    assert_eq!(ETHMessage::decode(&data, 99).unwrap(), ETHMessage::Unknown);
    assert_eq!(ETHMessage::decode(&[0xc0], 8).unwrap(), ETHMessage::Unknown);
    // Even unparseable bytes are fine under an unrecognized identifier.
    assert_eq!(ETHMessage::decode(&[0xf9, 0xff], 127).unwrap(), ETHMessage::Unknown);
}

#[test]
fn message_ids() {
    assert_eq!(ETHMessage::Unknown.id(), 127);
    assert_eq!(ETHMessage::Transactions(vec![]).id(), 2);
    assert_eq!(ETHMessage::BlockHeaders(vec![]).id(), 4);
    assert_eq!(ETHMessage::GetBlockBodies(vec![]).id(), 5);
    assert_eq!(ETHMessage::BlockBodies(vec![]).id(), 6);
    assert_eq!(ETHMessage::NewBlockHashes(vec![]).id(), 1);
    let by_hash = ETHMessage::GetBlockHeadersByHash {
        hash: sample_hash(0), max_headers: 1, skip: 0, reverse: false,
    };
    assert_eq!(by_hash.id(), 3);
    let by_number = ETHMessage::GetBlockHeadersByNumber {
        number: vec![], max_headers: 1, skip: 0, reverse: false,
    };
    assert_eq!(by_number.id(), 3);
}

#[test]
fn each_error_kind_has_an_input_that_yields_it() {
    // Too few fields for a status record.
    assert_eq!(
        ETHMessage::decode(&[0xc1, 0x05], 0),
        Err(DecodeError::MissingField)
    );
    // A 2-byte string where a 32-byte hash is expected.
    assert_eq!(
        ETHMessage::decode(&[0xc3, 0x82, 0x01, 0x02], 5),
        Err(DecodeError::WrongShape)
    );
    // A 9-byte protocol version overflows its 64-bit width.
    let data: [u8; 12] = [0xcb, 0x89, 1, 2, 3, 4, 5, 6, 7, 8, 9, 0xc0];
    assert_eq!(ETHMessage::decode(&data, 0), Err(DecodeError::NumericOverflow));
    // A scalar record where a list is required.
    assert_eq!(ETHMessage::decode(&[0x05], 0), Err(DecodeError::MalformedList));
    // Truncated bytes cannot be parsed at all.
    assert_eq!(ETHMessage::decode(&[0xf9, 0xff], 4), Err(DecodeError::MalformedList));
}

#[test]
fn round_trip_every_variant() {
    let messages = vec![
        ETHMessage::Status {
            protocol_version: 63,
            network_id: 1,
            total_difficulty: vec![],
            best_hash: sample_hash(3),
            genesis_hash: sample_hash(9),
        },
        ETHMessage::NewBlockHashes(vec![
            (sample_hash(1), vec![0x01]),
            (sample_hash(2), vec![0xff, 0x00]),
        ]),
        ETHMessage::Transactions(vec![RlpItem::List(vec![
            RlpItem::Str(vec![1]),
            RlpItem::Str(vec![0x80, 0x81]),
        ])]),
        ETHMessage::GetBlockHeadersByNumber {
            number: vec![0x10], max_headers: 2048, skip: 3, reverse: false,
        },
        ETHMessage::GetBlockHeadersByHash {
            hash: sample_hash(0xaa), max_headers: 1, skip: 0, reverse: true,
        },
        ETHMessage::BlockHeaders(vec![RlpItem::List(vec![])]),
        ETHMessage::GetBlockBodies(vec![sample_hash(7), sample_hash(8)]),
        ETHMessage::BlockBodies(vec![(
            vec![RlpItem::List(vec![RlpItem::Str(vec![1, 2, 3])])],
            vec![RlpItem::List(vec![])],
        )]),
        ETHMessage::NewBlock {
            block: RlpItem::List(vec![RlpItem::Str(vec![0xde, 0xad])]),
            total_difficulty: vec![0x12, 0x34],
        },
        ETHMessage::Unknown,
    ];
    for message in messages {
        let id = message.id();
        let decoded = ETHMessage::decode(&message.encode_bytes(), id).unwrap();
        assert_eq!(message, decoded);
    }
}

#[test]
fn long_payloads_round_trip() {
    // A record whose payload needs a multi-byte length prefix.
    let mut hashes = Vec::new();
    let mut i: u8 = 0;
    while i < 20 {
        hashes.push(sample_hash(i));
        i += 1;
    }
    let message = ETHMessage::GetBlockBodies(hashes);
    let bytes = message.encode_bytes();
    assert!(bytes.len() > 55);
    assert_eq!(message, ETHMessage::decode(&bytes, 5).unwrap());
}

#[test]
fn truncated_nested_item_is_an_error_not_a_crash() {
    // A list whose single entry declares five payload bytes but ends after
    // one: decoding reports a malformed record.
    assert_eq!(
        ETHMessage::decode(&[0xc2, 0x85, 0x01], 0),
        Err(DecodeError::MalformedList)
    );
    assert_eq!(
        ETHMessage::decode(&[0xc2, 0x85, 0x01], 1),
        Err(DecodeError::MalformedList)
    );
}
