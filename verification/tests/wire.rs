use bin_proto::error::Error;
use bin_proto::settings::{ByteOrder, Settings};
use bin_proto::wire::dgram::Pipeline;
use bin_proto::wire::middleware::{Chain, Identity, Middleware, Offset, RotateLeft};
use bin_proto::wire::stream::Connection;

#[test]
fn a_stage_undoes_its_own_transform() {
    let mut rot = Offset::rot13();
    let sent = rot.encode_data(vec![0, 1, 250, 255]).unwrap();
    assert_eq!(sent, vec![13, 14, 7, 12]);
    assert_eq!(rot.decode_data(sent).unwrap(), vec![0, 1, 250, 255]);
    let mut turn = RotateLeft;
    let sent = turn.encode_data(vec![0b1000_0001, 0b0100_0000, 0xff, 0]).unwrap();
    assert_eq!(sent, vec![0b0000_0011, 0b1000_0000, 0xff, 0]);
    assert_eq!(turn.decode_data(sent).unwrap(), vec![0b1000_0001, 0b0100_0000, 0xff, 0]);
    let mut same = Identity;
    assert_eq!(same.encode_data(vec![1, 2]).unwrap(), vec![1, 2]);
    assert_eq!(same.decode_data(vec![1, 2]).unwrap(), vec![1, 2]);
}

#[test]
fn stages_apply_in_declared_order_both_ways() {
    let mut chain = Chain { first: Offset { offset: 1 }, second: RotateLeft };
    assert_eq!(chain.encode_data(vec![0, 0x7f, 0xff]).unwrap(), vec![2, 1, 0]);
    assert_eq!(chain.decode_data(vec![2, 1, 0]).unwrap(), vec![0x80, 0, 0xff]);
}

#[test]
fn a_packet_of_bytes_255_survives_add_one_then_rotate() {
    let mut chain = Chain { first: Offset { offset: 1 }, second: RotateLeft };
    for data in [vec![], vec![255], vec![255; 9]] {
        let sent = chain.encode_data(data.clone()).unwrap();
        assert_eq!(chain.decode_data(sent).unwrap(), data);
    }
    let sent = chain.encode_data(vec![255, 0]).unwrap();
    assert_ne!(chain.decode_data(sent).unwrap(), vec![255, 0]);
}

#[test]
fn stages_whose_decodes_commute_give_the_packet_back() {
    let mut chain = Chain { first: Offset { offset: 1 }, second: Offset { offset: 200 } };
    let data: Vec<u8> = (0..=255).collect();
    let sent = chain.encode_data(data.clone()).unwrap();
    assert_eq!(sent[0], 201);
    assert_eq!(chain.decode_data(sent).unwrap(), data);
}

#[test]
fn a_datagram_pipeline_sends_and_receives_packets() {
    for byte_order in [ByteOrder::BigEndian, ByteOrder::LittleEndian] {
        let settings = Settings { byte_order };
        let mut pipeline: Pipeline<(i64, Vec<u8>), Offset> =
            Pipeline::new(Offset::rot13(), settings);
        let packet = (51i64, vec![1u8, 2, 3]);
        let wire = pipeline.send_to(&packet).unwrap();
        assert_eq!(wire.len(), 15);
        assert_eq!(pipeline.receive_from(wire).unwrap(), packet);
    }
    let mut pipeline: Pipeline<u16, Offset> =
        Pipeline::new(Offset { offset: 1 }, Settings::default());
    assert_eq!(pipeline.send_to(&0x01ff).unwrap(), vec![2, 0]);
    assert_eq!(pipeline.receive_from(vec![2, 0]).unwrap(), 0x01ff);
    assert!(matches!(pipeline.receive_from(vec![2]), Err(Error::Io)));
}

#[test]
fn a_stream_connection_hands_out_one_packet_at_a_time() {
    let mut connection: Connection<String, Identity> =
        Connection::new(Identity, Settings::default());
    let wire = connection.send_packet(&"ping".to_string()).unwrap();
    assert_eq!(wire, vec![0, 0, 0, 4, b'p', b'i', b'n', b'g']);
    assert_eq!(connection.receive_packet(vec![]).unwrap(), None);
    assert_eq!(connection.receive_packet(wire).unwrap(), Some("ping".to_string()));
    assert!(matches!(connection.receive_packet(vec![0, 0, 0, 1, 0xff]), Err(Error::Utf8)));
}
