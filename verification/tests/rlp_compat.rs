//! Cross-checks of the wire grammar against an independent recursive
//! length-prefixed serializer and parser.

use devp2p::message::ETHMessage;

#[test]
fn status_encoding_matches_independent_serializer() {
    let message = ETHMessage::Status {
        protocol_version: 63,
        network_id: 1,
        total_difficulty: vec![0x12, 0x34],
        best_hash: vec![0xaa; 32],
        genesis_hash: vec![0xbb; 32],
    };
    let mut s = rlp::RlpStream::new();
    s.begin_list(5);
    s.append(&63usize);
    s.append(&1usize);
    s.append(&vec![0x12u8, 0x34]);
    s.append(&vec![0xaau8; 32]);
    s.append(&vec![0xbbu8; 32]);
    assert_eq!(message.encode_bytes(), s.out());
}

#[test]
fn independent_parser_reads_back_encoded_fields() {
    let message = ETHMessage::GetBlockHeadersByNumber {
        number: vec![0x1d, 0x4c],
        max_headers: 2048,
        skip: 3,
        reverse: true,
    };
    let bytes = message.encode_bytes();
    let view = rlp::UntrustedRlp::new(&bytes);
    assert_eq!(view.item_count().unwrap(), 4);
    let number: Vec<u8> = view.val_at(0).unwrap();
    assert_eq!(number, vec![0x1d, 0x4c]);
    let max_headers: usize = view.val_at(1).unwrap();
    assert_eq!(max_headers, 2048);
    let skip: usize = view.val_at(2).unwrap();
    assert_eq!(skip, 3);
    let reverse: u32 = view.val_at(3).unwrap();
    assert_eq!(reverse, 1);
}

#[test]
fn long_record_header_matches_independent_serializer() {
    // A payload above 55 bytes takes the long header form.
    let message = ETHMessage::GetBlockBodies(vec![vec![0x11; 32], vec![0x22; 32]]);
    let mut s = rlp::RlpStream::new();
    s.begin_list(2);
    s.append(&vec![0x11u8; 32]);
    s.append(&vec![0x22u8; 32]);
    assert_eq!(message.encode_bytes(), s.out());
}
