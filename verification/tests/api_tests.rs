use ensured_bufreader::{EnsuredBufReader, FillError, SliceSource, DEFAULT_ENSURED_BYTES};

fn multibyte_sample() -> Vec<u8> {
    "a\u{C0}\u{3042}\u{1F600}".as_bytes().to_vec()
}

#[test]
fn api_tests_read_long() {
    let short = multibyte_sample();
    let mut input = Vec::with_capacity(short.len() * 32 * 1024);
    for _ in 0..32 * 1024 {
        input.extend_from_slice(&short);
    }

    let mut r = EnsuredBufReader::new(SliceSource::new(input.clone()));

    let mut read_bytes = Vec::<u8>::with_capacity(input.len());
    let mut read_buf = vec![0u8; 256];

    loop {
        let n = r.read(&mut read_buf).unwrap();

        let bs = &read_buf[..n];
        read_bytes.extend_from_slice(bs);

        if n < DEFAULT_ENSURED_BYTES {
            break;
        }
    }

    assert_eq!(
        input,
        read_bytes,
        "with capacity ={}, ensure = {}",
        r.get_capacity(),
        r.get_ensured_size()
    );
}

#[test]
fn fill_buf_short() {
    let input = multibyte_sample();

    let mut r = EnsuredBufReader::new(SliceSource::new(input.clone()));
    let mut read_bytes = Vec::<u8>::with_capacity(input.len());

    loop {
        let buf = r.fill_buf().unwrap();
        read_bytes.extend_from_slice(buf);
        let n = buf.len();
        r.consume(n);

        if n < DEFAULT_ENSURED_BYTES {
            break;
        }
    }

    assert_eq!(
        input.as_slice(),
        read_bytes.as_slice(),
        "with capacity ={}, ensure = {}",
        r.get_capacity(),
        r.get_ensured_size()
    );
}

#[test]
fn fill_buf_long() {
    let short = multibyte_sample();
    let mut input = Vec::with_capacity(short.len() * 32 * 1024);
    for _ in 0..32 * 1024 {
        input.extend_from_slice(&short);
    }

    let mut r = EnsuredBufReader::new(SliceSource::new(input.clone()));

    let mut read_bytes = Vec::<u8>::with_capacity(input.len());

    loop {
        let buf = r.fill_buf().unwrap();
        read_bytes.extend_from_slice(buf);
        let n = buf.len();
        r.consume(n);

        if n < DEFAULT_ENSURED_BYTES {
            break;
        }
    }

    assert_eq!(
        input,
        read_bytes,
        "with capacity ={}, ensure = {}",
        r.get_capacity(),
        r.get_ensured_size()
    );
}

#[test]
fn works_with_given_buffer() {
    let short = multibyte_sample();
    let mut input = Vec::with_capacity(short.len() * 32 * 1024);
    for _ in 0..32 * 1024 {
        input.extend_from_slice(&short);
    }

    let buf = vec![0u8; 2 * DEFAULT_ENSURED_BYTES];
    let mut r = EnsuredBufReader::from_mut_ref(buf, SliceSource::new(input.clone()));

    let mut read_bytes = Vec::<u8>::with_capacity(input.len());

    loop {
        let buf = r.fill_buf().unwrap();
        read_bytes.extend_from_slice(buf);
        let n = buf.len();
        r.consume(n);

        if n < DEFAULT_ENSURED_BYTES {
            break;
        }
    }

    assert_eq!(
        input,
        read_bytes,
        "with capacity ={}, ensure = {}",
        r.get_capacity(),
        r.get_ensured_size()
    );
}

#[test]
fn fill_buf_to_expected_size_returns_error_when_expected_size_is_too_large() {
    let short = multibyte_sample();
    let mut input = Vec::with_capacity(short.len() * 32 * 1024);
    for _ in 0..256 {
        input.extend_from_slice(&short);
    }

    let mut r =
        EnsuredBufReader::with_capacity_and_ensured_size(512, 1, SliceSource::new(input));

    let err = r.fill_buf_to_expected_size(513).unwrap_err();
    assert!(matches!(err, FillError::ExpectedSizeTooLarge(_)));
}
