use wirehair::gf_add;
use wirehair::wirehair_init;
use wirehair::gf_div;
use wirehair::gf_inv;
use wirehair::gf_mul;
use wirehair::parse_wirehair_result;
use wirehair::WirehairDecoder;
use wirehair::WirehairEncoder;
use wirehair::WirehairError;
use wirehair::WirehairResult;
use wirehair::WirehairResultCode;

#[test]
fn init_is_idempotent() {
    assert!(wirehair_init().is_ok());
    assert!(wirehair_init().is_ok());
}

#[test]
fn field_addition_is_xor() {
    assert_eq!(gf_add(0, 0), 0);
    assert_eq!(gf_add(0x53, 0x53), 0);
    assert_eq!(gf_add(0xf0, 0x0f), 0xff);
    assert_eq!(gf_add(0xa5, 0), 0xa5);
}

#[test]
fn field_multiplication_known_values() {
    // Multiplication by zero and one.
    for a in 0..=255u8 {
        assert_eq!(gf_mul(a, 0), 0);
        assert_eq!(gf_mul(0, a), 0);
        assert_eq!(gf_mul(a, 1), a);
        assert_eq!(gf_mul(1, a), a);
    }
    // Doubling reduces modulo the polynomial.
    assert_eq!(gf_mul(2, 2), 4);
    assert_eq!(gf_mul(0x80, 2), 0x1b);
    // A classical inverse pair in this field.
    assert_eq!(gf_mul(0x53, 0xca), 1);
}

#[test]
fn field_multiplication_commutes_on_samples() {
    for a in 0..=255u16 {
        for &b in &[0u8, 1, 2, 3, 0x1b, 0x53, 0x80, 0xca, 0xff] {
            assert_eq!(gf_mul(a as u8, b), gf_mul(b, a as u8));
        }
    }
}

#[test]
fn field_inverse_and_division() {
    assert!(gf_inv(0).is_none());
    for b in 1..=255u8 {
        let inv = gf_inv(b).unwrap();
        assert_eq!(gf_mul(b, inv), 1);
        assert_eq!(gf_mul(inv, b), 1);
    }
    for &(a, b) in &[(1u8, 3u8), (0x53, 0xca), (7, 200), (255, 255)] {
        let q = gf_div(a, b).unwrap();
        assert_eq!(gf_mul(q, b), a);
    }
    // Division by zero only solves zero.
    assert_eq!(gf_div(0, 0), Some(0));
    assert!(gf_div(5, 0).is_none());
}

#[test]
fn parse_maps_every_code() {
    assert!(matches!(
        parse_wirehair_result(WirehairResultCode::Success),
        Ok(WirehairResult::Success)
    ));
    assert!(matches!(
        parse_wirehair_result(WirehairResultCode::NeedMore),
        Ok(WirehairResult::NeedMore)
    ));
    assert!(matches!(
        parse_wirehair_result(WirehairResultCode::Count),
        Ok(WirehairResult::Internal)
    ));
    assert!(matches!(
        parse_wirehair_result(WirehairResultCode::Padding),
        Ok(WirehairResult::Internal)
    ));
    assert_eq!(
        parse_wirehair_result(WirehairResultCode::InvalidInput),
        Err(WirehairError::InvalidInput)
    );
    assert_eq!(
        parse_wirehair_result(WirehairResultCode::BadDenseSeed),
        Err(WirehairError::BadDenseSeed)
    );
    assert_eq!(
        parse_wirehair_result(WirehairResultCode::BadPeelSeed),
        Err(WirehairError::BadPeelSeed)
    );
    assert_eq!(
        parse_wirehair_result(WirehairResultCode::BadInputSmallN),
        Err(WirehairError::BadInputSmallN)
    );
    assert_eq!(
        parse_wirehair_result(WirehairResultCode::BadInputLargeN),
        Err(WirehairError::BadInputLargeN)
    );
    assert_eq!(
        parse_wirehair_result(WirehairResultCode::ExtraInsufficient),
        Err(WirehairError::ExtraInsufficient)
    );
    assert_eq!(
        parse_wirehair_result(WirehairResultCode::Error),
        Err(WirehairError::Error)
    );
    assert_eq!(
        parse_wirehair_result(WirehairResultCode::OOM),
        Err(WirehairError::OOM)
    );
    assert_eq!(
        parse_wirehair_result(WirehairResultCode::UnsupportedPlatform),
        Err(WirehairError::UnsupportedPlatform)
    );
}

#[test]
fn error_messages_match() {
    assert_eq!(
        WirehairError::InvalidInput.message(),
        "A function parameter was invalid"
    );
    assert_eq!(
        WirehairError::BadDenseSeed.message(),
        "Encoder needs a better dense seed"
    );
    assert_eq!(
        WirehairError::BadInputSmallN.message(),
        "Too less blocks! Try reducing block size or use a larger message"
    );
    assert_eq!(WirehairError::OOM.message(), "Out of memory");
}

#[test]
fn creation_rejects_bad_sizes() {
    // Zero block size and zero message length are invalid input.
    let msg = vec![1u8; 10];
    assert_eq!(
        WirehairEncoder::new(&msg, 10, 0).err,
        Some(WirehairError::InvalidInput)
    );
    assert_eq!(
        WirehairEncoder::new(&msg, 0, 10).err,
        Some(WirehairError::InvalidInput)
    );
    // A buffer whose length disagrees with the declared size is invalid.
    assert_eq!(
        WirehairEncoder::new(&msg, 11, 5).err,
        Some(WirehairError::InvalidInput)
    );
    // One row is too few.
    assert_eq!(
        WirehairEncoder::new(&msg, 10, 50).err,
        Some(WirehairError::BadInputSmallN)
    );
    // More than 64000 rows is too many.
    let big = vec![0u8; 64001];
    assert_eq!(
        WirehairEncoder::new(&big, 64001, 1).err,
        Some(WirehairError::BadInputLargeN)
    );
    // The decoder applies the same rules.
    assert_eq!(
        WirehairDecoder::new(10, 0).err,
        Some(WirehairError::InvalidInput)
    );
    assert_eq!(
        WirehairDecoder::new(10, 50).err,
        Some(WirehairError::BadInputSmallN)
    );
    assert_eq!(
        WirehairDecoder::new(64001, 1).err,
        Some(WirehairError::BadInputLargeN)
    );
}

#[test]
fn rejected_sessions_refuse_calls() {
    let msg = vec![1u8; 10];
    let enc = WirehairEncoder::new(&msg, 10, 50);
    let mut block = vec![0u8; 50];
    let mut out: u32 = 0;
    assert_eq!(
        enc.encode(0, &mut block, 50, &mut out),
        Err(WirehairError::BadInputSmallN)
    );
    let mut dec = WirehairDecoder::new(10, 50);
    assert_eq!(
        dec.decode(0, &block, 50),
        Err(WirehairError::BadInputSmallN)
    );
}

#[test]
fn mismatched_buffers_are_invalid_input() {
    let msg = vec![7u8; 100];
    let enc = WirehairEncoder::new(&msg, 100, 10);
    assert!(enc.err.is_none());
    let mut short = vec![0u8; 9];
    let mut out: u32 = 0;
    assert_eq!(
        enc.encode(0, &mut short, 10, &mut out),
        Err(WirehairError::InvalidInput)
    );
    let mut block = vec![0u8; 10];
    assert_eq!(
        enc.encode(0, &mut block, 9, &mut out),
        Err(WirehairError::InvalidInput)
    );

    let mut dec = WirehairDecoder::new(100, 10);
    assert!(enc.encode(3, &mut block, 10, &mut out).is_ok());
    assert_eq!(dec.decode(3, &short, 10), Err(WirehairError::InvalidInput));
    assert_eq!(dec.decode(3, &block, 9), Err(WirehairError::InvalidInput));
    assert!(dec.decode(3, &block, 10).is_ok());

    // recover with a wrong size or before success is misuse.
    let mut buf = vec![0u8; 99];
    assert_eq!(
        dec.recover(&mut buf, 99),
        Err(WirehairError::InvalidInput)
    );
    let mut full = vec![0u8; 100];
    assert_eq!(
        dec.recover(&mut full, 100),
        Err(WirehairError::InvalidInput)
    );
}
