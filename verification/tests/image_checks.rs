use xai_grok_input_sanitize::{analyze_image_bytes, decode_base64_image, SignalKind};

/// Shannon entropy of `bytes` in millionths of a bit per byte, rounded down.
fn entropy_micro(bytes: &[u8]) -> u32 {
    if bytes.is_empty() {
        return 0;
    }
    let mut counts = [0u32; 256];
    for &b in bytes {
        counts[b as usize] += 1;
    }
    let n = bytes.len() as f64;
    let mut h = 0.0f64;
    for c in counts {
        if c == 0 {
            continue;
        }
        let p = c as f64 / n;
        h -= p * p.log2();
    }
    (h * 1_000_000.0).floor() as u32
}

#[test]
fn random_bytes_flag_high_entropy() {
    let mut bytes = Vec::with_capacity(2048);
    for i in 0..2048u32 {
        bytes.push(((i.wrapping_mul(1103515245).wrapping_add(12345)) >> 16) as u8);
    }
    let r = analyze_image_bytes(&bytes, Some("application/octet-stream"), entropy_micro(&bytes));
    assert!(
        r.score > 0,
        "expected some image statistical signal, got {:?}",
        r.signals
    );
}

#[test]
fn png_with_large_text_chunk_flagged() {
    let mut bytes = vec![0x89, b'P', b'N', b'G', b'\r', b'\n', 0x1a, b'\n'];
    bytes.extend_from_slice(&13u32.to_be_bytes());
    bytes.extend_from_slice(b"IHDR");
    bytes.extend_from_slice(&[0u8; 13]);
    bytes.extend_from_slice(&0u32.to_be_bytes());
    let text = vec![b'A'; 3000];
    bytes.extend_from_slice(&(text.len() as u32).to_be_bytes());
    bytes.extend_from_slice(b"tEXt");
    bytes.extend_from_slice(&text);
    bytes.extend_from_slice(&0u32.to_be_bytes());
    bytes.extend_from_slice(&0u32.to_be_bytes());
    bytes.extend_from_slice(b"IEND");
    bytes.extend_from_slice(&0u32.to_be_bytes());

    let r = analyze_image_bytes(&bytes, Some("image/png"), entropy_micro(&bytes));
    assert!(
        r.signals
            .iter()
            .any(|s| s.kind == SignalKind::ImageContainerAnomaly),
        "signals={:?}",
        r.signals
    );
}

#[test]
fn jpeg_trailing_after_eoi() {
    let mut bytes = vec![0xFF, 0xD8, 0xFF, 0xD9];
    bytes.extend(std::iter::repeat(0x41).take(500));
    let r = analyze_image_bytes(&bytes, Some("image/jpeg"), entropy_micro(&bytes));
    assert!(
        r.signals
            .iter()
            .any(|s| s.kind == SignalKind::ImageContainerAnomaly),
        "signals={:?}",
        r.signals
    );
}

#[test]
fn base64_roundtrip_decode() {
    let d = decode_base64_image("aGk=").unwrap();
    assert_eq!(d, b"hi");
}
