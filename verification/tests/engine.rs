use localagent::engine::{completion_failed, ffi_error_detail, ffi_error_message, strip_wav_header};

fn reply(text: &str, size: usize) -> Vec<u8> {
    let mut v = text.as_bytes().to_vec();
    v.resize(size, 0);
    v
}

#[test]
fn ffi_error_message_takes_error_field() {
    let buf = reply(r#"{"success":false,"error":"model failed"}"#, 128);
    assert_eq!(ffi_error_message(-1, &buf), "ffi error: model failed");
}

#[test]
fn ffi_error_detail_keeps_escapes() {
    let buf = reply(r#"{"error":"bad \"x\" here","more":1}"#, 64);
    assert_eq!(ffi_error_detail(&buf).as_deref(), Some(r#"bad \"x\" here"#));
    let buf = reply(r#"{"error":"ends with \\"}"#, 40);
    assert_eq!(ffi_error_detail(&buf).as_deref(), Some(r#"ends with \\"#));
}

#[test]
fn ffi_error_message_falls_back_to_code() {
    assert_eq!(ffi_error_message(-7, &reply("{}", 16)), "ffi error: code -7");
    assert_eq!(ffi_error_message(-2147483648, &reply("", 4)), "ffi error: code -2147483648");
    // not UTF-8
    assert_eq!(ffi_error_message(-3, &[0xff, 0xfe]), "ffi error: code -3");
    // unterminated string
    assert_eq!(ffi_error_message(-4, &reply(r#"{"error":"open"#, 20)), "ffi error: code -4");
}

#[test]
fn completion_failed_ignores_cancelled_runs() {
    assert!(completion_failed(-1, false));
    assert!(!completion_failed(-1, true));
    assert!(!completion_failed(0, false));
}

#[test]
fn strip_wav_header_removes_riff_header() {
    let mut wav = vec![
        0x52, 0x49, 0x46, 0x46, 0x24, 0x00, 0x00, 0x00, 0x57, 0x41, 0x56, 0x45, 0x66, 0x6d, 0x74,
        0x20, 0x10, 0x00, 0x00, 0x00, 0x01, 0x00, 0x01, 0x00, 0x80, 0x3e, 0x00, 0x00, 0x00, 0x7d,
        0x00, 0x00, 0x02, 0x00, 0x10, 0x00, 0x64, 0x61, 0x74, 0x61, 0x04, 0x00, 0x00, 0x00,
    ];
    wav.extend_from_slice(&[0x00, 0x00, 0x01, 0x00]);
    let pcm = strip_wav_header(wav);
    assert_eq!(pcm.len(), 4);
    assert_eq!(pcm, vec![0x00, 0x00, 0x01, 0x00]);
}

#[test]
fn strip_wav_header_keeps_other_data() {
    let data = vec![0x01, 0x02, 0x03];
    assert_eq!(strip_wav_header(data.clone()), data);
    // exactly 44 bytes starting with RIFF are kept whole
    let mut wav = vec![0u8; 44];
    wav[..4].copy_from_slice(b"RIFF");
    assert_eq!(strip_wav_header(wav.clone()).len(), 44);
    let mut long = vec![0u8; 50];
    long[..4].copy_from_slice(b"RIFX");
    assert_eq!(strip_wav_header(long).len(), 50);
}
