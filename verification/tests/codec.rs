use wirehair::wirehair_decoder_to_encoder;
use wirehair::wirehair_init;
use wirehair::WirehairDecoder;
use wirehair::WirehairEncoder;
use wirehair::WirehairError;
use wirehair::WirehairResult;

#[test]
fn basic_flow_works() {
    assert!(wirehair_init().is_ok());

    let mut message = vec![0u8; 500];
    for i in 0..500 {
        message[i] = i as u8
    }

    let encoder = WirehairEncoder::new(&message, 500, 50);
    let mut decoder = WirehairDecoder::new(500, 50);

    let mut block_id = 0;

    loop {
        let mut block = vec![0u8; 50];
        let mut block_out_bytes: u32 = 0;
        let result = encoder.encode(block_id, &mut block, 50, &mut block_out_bytes);
        assert!(result.is_ok());

        if block_id % 5 == 0 {
            block_id += 1;
            continue;
        }

        let result = decoder.decode(block_id, &block, block_out_bytes);
        assert!(result.is_ok());

        block_id += 1;

        match result.unwrap() {
            WirehairResult::NeedMore => continue,
            WirehairResult::Success => break,
            _ => panic!(),
        }
    }

    let mut decoded_message = vec![0u8; 500];

    let result = decoder.recover(&mut decoded_message, 500);
    assert!(result.is_ok());

    assert!(wirehair_decoder_to_encoder(decoder).is_ok());
}

fn repeating_message(len: usize) -> Vec<u8> {
    (0..len).map(|i| (i % 256) as u8).collect()
}

fn encode_block(encoder: &WirehairEncoder, id: u64, block_size: u32) -> Vec<u8> {
    let mut block = vec![0u8; block_size as usize];
    let mut out: u32 = 0;
    let r = encoder.encode(id, &mut block, block_size, &mut out);
    assert!(r.is_ok());
    assert_eq!(out, block_size);
    block
}

#[test]
fn even_blocks_recover_concrete_message() {
    // M = 500 bytes of 0..255 repeating, block_size = 50, so N = 10 rows.
    let message = repeating_message(500);
    let encoder = WirehairEncoder::new(&message, 500, 50);
    assert!(encoder.err.is_none());

    let blocks: Vec<Vec<u8>> = (0..20u64).map(|id| encode_block(&encoder, id, 50)).collect();

    let mut decoder = WirehairDecoder::new(500, 50);
    let mut last = WirehairResult::NeedMore;
    for k in 0..10u64 {
        let id = 2 * k;
        let r = decoder.decode(id, &blocks[id as usize], 50);
        assert!(r.is_ok());
        last = r.unwrap();
    }
    assert!(matches!(last, WirehairResult::Success));

    let mut recovered = vec![0u8; 500];
    let r = decoder.recover(&mut recovered, 500);
    assert!(matches!(r, Ok(WirehairResult::Success)));
    assert_eq!(recovered, message);
}

#[test]
fn five_blocks_stay_need_more() {
    let message = repeating_message(500);
    let encoder = WirehairEncoder::new(&message, 500, 50);
    let blocks: Vec<Vec<u8>> = (0..20u64).map(|id| encode_block(&encoder, id, 50)).collect();

    let mut decoder = WirehairDecoder::new(500, 50);
    // Only five distinct blocks: never enough for ten rows, however often
    // they are repeated.
    for _round in 0..10 {
        for id in [1u64, 3, 5, 7, 9] {
            let r = decoder.decode(id, &blocks[id as usize], 50);
            assert!(matches!(r, Ok(WirehairResult::NeedMore)));
        }
    }
    let mut recovered = vec![0u8; 500];
    let r = decoder.recover(&mut recovered, 500);
    assert!(matches!(r, Err(WirehairError::InvalidInput)));
    // The output buffer is untouched by a failed recover.
    assert_eq!(recovered, vec![0u8; 500]);
}

#[test]
fn round_trip_various_sizes() {
    for &(len, bs) in &[(20usize, 10u32), (97, 10), (256, 16), (1000, 100)] {
        let message = repeating_message(len);
        let encoder = WirehairEncoder::new(&message, len as u64, bs);
        assert!(encoder.err.is_none());
        let mut decoder = WirehairDecoder::new(len as u64, bs);
        let mut id = 0u64;
        let mut done = false;
        while !done {
            let block = encode_block(&encoder, id, bs);
            let r = decoder.decode(id, &block, bs);
            assert!(r.is_ok());
            done = matches!(r.unwrap(), WirehairResult::Success);
            id += 1;
        }
        let mut recovered = vec![0u8; len];
        let r = decoder.recover(&mut recovered, len as u64);
        assert!(matches!(r, Ok(WirehairResult::Success)));
        assert_eq!(recovered, message);
    }
}

#[test]
fn round_trip_from_high_ids_with_dense_help() {
    // Mostly sparse blocks (high ids), with the dense range mixed in where
    // needed to reach full rank.
    let message = repeating_message(300);
    let encoder = WirehairEncoder::new(&message, 300, 30);
    let mut decoder = WirehairDecoder::new(300, 30);
    let mut done = false;
    // Sparse ids first, then dense ids until the system solves.
    let ids: Vec<u64> = (40..70u64).chain(0..10u64).collect();
    for id in ids {
        if done {
            break;
        }
        let block = encode_block(&encoder, id, 30);
        let r = decoder.decode(id, &block, 30);
        assert!(r.is_ok());
        done = matches!(r.unwrap(), WirehairResult::Success);
    }
    assert!(done);
    let mut recovered = vec![0u8; 300];
    assert!(decoder.recover(&mut recovered, 300).is_ok());
    assert_eq!(recovered, message);
}

#[test]
fn encode_is_deterministic() {
    let message = repeating_message(500);
    let e1 = WirehairEncoder::new(&message, 500, 50);
    let e2 = WirehairEncoder::new(&message, 500, 50);
    for id in 0..30u64 {
        let a = encode_block(&e1, id, 50);
        let b = encode_block(&e1, id, 50);
        let c = encode_block(&e2, id, 50);
        assert_eq!(a, b);
        assert_eq!(a, c);
    }
}

#[test]
fn repeats_and_order_do_not_matter() {
    let message = repeating_message(500);
    let encoder = WirehairEncoder::new(&message, 500, 50);
    let blocks: Vec<Vec<u8>> = (0..14u64).map(|id| encode_block(&encoder, id, 50)).collect();

    let mut decoder = WirehairDecoder::new(500, 50);
    // Feed in reverse order, with every block repeated immediately.
    let mut last = WirehairResult::NeedMore;
    for id in (0..14u64).rev() {
        if matches!(last, WirehairResult::Success) {
            break;
        }
        let r = decoder.decode(id, &blocks[id as usize], 50);
        assert!(r.is_ok());
        last = r.unwrap();
        // A repeat of the same id never changes the status.
        let again = decoder.decode(id, &blocks[id as usize], 50);
        assert!(again.is_ok());
        let expected_need_more = !matches!(last, WirehairResult::Success);
        assert_eq!(
            matches!(again.unwrap(), WirehairResult::NeedMore),
            expected_need_more
        );
    }
    assert!(matches!(last, WirehairResult::Success));
    let mut recovered = vec![0u8; 500];
    assert!(decoder.recover(&mut recovered, 500).is_ok());
    assert_eq!(recovered, message);
}

#[test]
fn success_is_sticky() {
    let message = repeating_message(500);
    let encoder = WirehairEncoder::new(&message, 500, 50);
    let mut decoder = WirehairDecoder::new(500, 50);
    let mut id = 0u64;
    loop {
        let block = encode_block(&encoder, id, 50);
        let r = decoder.decode(id, &block, 50);
        assert!(r.is_ok());
        if matches!(r.unwrap(), WirehairResult::Success) {
            break;
        }
        id += 1;
    }
    // Further valid blocks keep reporting Success and recover stays valid.
    for extra in 100..110u64 {
        let block = encode_block(&encoder, extra, 50);
        let r = decoder.decode(extra, &block, 50);
        assert!(matches!(r, Ok(WirehairResult::Success)));
    }
    let mut recovered = vec![0u8; 500];
    assert!(decoder.recover(&mut recovered, 500).is_ok());
    assert_eq!(recovered, message);
    // recover is idempotent.
    let mut recovered2 = vec![0u8; 500];
    assert!(decoder.recover(&mut recovered2, 500).is_ok());
    assert_eq!(recovered2, message);
}

#[test]
fn converted_encoder_matches_original() {
    let message = repeating_message(500);
    let encoder = WirehairEncoder::new(&message, 500, 50);
    let mut decoder = WirehairDecoder::new(500, 50);
    let mut id = 0u64;
    loop {
        let block = encode_block(&encoder, id, 50);
        let r = decoder.decode(id, &block, 50);
        assert!(r.is_ok());
        if matches!(r.unwrap(), WirehairResult::Success) {
            break;
        }
        id += 1;
    }
    let converted = wirehair_decoder_to_encoder(decoder).unwrap();
    for check_id in 0..40u64 {
        let original = encode_block(&encoder, check_id, 50);
        let again = encode_block(&converted, check_id, 50);
        assert_eq!(original, again);
    }
}

#[test]
fn extreme_block_ids_work() {
    // Any non-negative id is a valid request; there is no upper bound.
    let message = repeating_message(200);
    let encoder = WirehairEncoder::new(&message, 200, 20);
    let mut decoder = WirehairDecoder::new(200, 20);
    for &id in &[u64::MAX, u64::MAX - 1, 1 << 63, 1 << 32, 12345678901234] {
        let a = encode_block(&encoder, id, 20);
        let b = encode_block(&encoder, id, 20);
        assert_eq!(a, b);
        let r = decoder.decode(id, &a, 20);
        assert!(r.is_ok());
    }
    // The dense range still solves the rest of the system.
    let mut done = false;
    for id in 0..10u64 {
        if done {
            break;
        }
        let block = encode_block(&encoder, id, 20);
        let r = decoder.decode(id, &block, 20);
        assert!(r.is_ok());
        done = matches!(r.unwrap(), WirehairResult::Success);
    }
    assert!(done);
    let mut recovered = vec![0u8; 200];
    assert!(decoder.recover(&mut recovered, 200).is_ok());
    assert_eq!(recovered, message);
}

#[test]
fn oversized_buffers_are_accepted() {
    let message = repeating_message(200);
    let encoder = WirehairEncoder::new(&message, 200, 20);

    // Encoding into a larger buffer writes the first 20 bytes and leaves the
    // tail untouched.
    let mut big = vec![0xabu8; 32];
    let mut out: u32 = 0;
    let r = encoder.encode(3, &mut big, 20, &mut out);
    assert!(matches!(r, Ok(WirehairResult::Success)));
    assert_eq!(out, 20);
    let exact = encode_block(&encoder, 3, 20);
    assert_eq!(&big[..20], &exact[..]);
    assert_eq!(&big[20..], &[0xab; 12]);

    // Recovery into a larger buffer writes the message and leaves the tail
    // untouched, and stays idempotent.
    let mut decoder = WirehairDecoder::new(200, 20);
    let mut id = 0u64;
    loop {
        let block = encode_block(&encoder, id, 20);
        let r = decoder.decode(id, &block, 20);
        assert!(r.is_ok());
        if matches!(r.unwrap(), WirehairResult::Success) {
            break;
        }
        id += 1;
    }
    let mut outbuf = vec![0xcdu8; 230];
    let r = decoder.recover(&mut outbuf, 200);
    assert!(matches!(r, Ok(WirehairResult::Success)));
    assert_eq!(&outbuf[..200], &message[..]);
    assert_eq!(&outbuf[200..], &[0xcd; 30]);
    let mut outbuf2 = vec![0u8; 201];
    assert!(decoder.recover(&mut outbuf2, 200).is_ok());
    assert_eq!(&outbuf2[..200], &message[..]);
}

#[test]
fn conversion_before_success_is_misuse() {
    let decoder = WirehairDecoder::new(500, 50);
    let r = wirehair_decoder_to_encoder(decoder);
    assert!(matches!(r, Err(WirehairError::InvalidInput)));
}
