use sync_iobs::config::SAMPLE_CONFIG;
use sync_iobs::ini::parse_ini;
use sync_iobs::json::json_get;
use sync_iobs::percent::percent_encode;
use sync_iobs::sha1::{hmac_sha1, sha1};
use sync_iobs::size::parse_size;
use sync_iobs::token::Signer;

fn hex(b: &[u8]) -> String {
    b.iter().map(|x| format!("{:02x}", x)).collect()
}

#[test]
fn ini_and_size() {
    let s = parse_ini(SAMPLE_CONFIG);
    assert_eq!(
        s.get("outer").unwrap().get("base_url").unwrap(),
        "https://iobs.example.com"
    );
    assert_eq!(
        s.get("inner").unwrap().get("base_url").unwrap(),
        "https://iobs-inner.example.com"
    );
    assert_eq!(parse_size("10MB"), Some(10 * 1024 * 1024));
    assert_eq!(parse_size("512"), Some(512));
    assert_eq!(parse_size("1GB"), Some(1024 * 1024 * 1024));
}

#[test]
fn json_and_encode() {
    let s = r#"{"bucket":"b","hash":"abc123","key":"k"}"#;
    assert_eq!(json_get(s, "hash"), Some("abc123".to_string()));
    assert_eq!(json_get(s, "none"), None);
    assert_eq!(percent_encode("a b.txt"), "a%20b.txt");
}

#[test]
fn sha1_vectors() {
    assert_eq!(hex(&sha1(b"")), "da39a3ee5e6b4b0d3255bfef95601890afd80709");
    assert_eq!(hex(&sha1(b"abc")), "a9993e364706816aba3e25717850c26c9cd0d89d");
    assert_eq!(
        hex(&sha1(b"abcdbcdecdefdefgefghfghighijhijkijkljklmklmnlmnomnopnopq")),
        "84983e441c3bd26ebaae4aa1f95129e5e54670f1"
    );
    // Several blocks, and a length at the edge of the padding.
    let long = "a".repeat(1000);
    assert_eq!(hex(&sha1(long.as_bytes())), "291e9a6c66994949b57ba5e650361e98fc36b1ba");
}

#[test]
fn hmac_rfc2202() {
    let k = vec![0x0bu8; 20];
    assert_eq!(hex(&hmac_sha1(&k, b"Hi There")), "b617318655057264e28bc0b6fb378c8ef146be00");
    assert_eq!(
        hex(&hmac_sha1(&vec![0xaau8; 20], &vec![0xddu8; 50])),
        "125d7342b9ac11cd91a39af48aa17b4f63f175d3"
    );
    // A key longer than a block is hashed first.
    assert_eq!(
        hex(&hmac_sha1(
            &vec![0xaau8; 80],
            b"Test Using Larger Than Block-Size Key - Hash Key First"
        )),
        "aa4ae5e15272d00e95705637ce8a3b55ed402112"
    );
}

#[test]
fn matches_reference_token() {
    let s = Signer::new("TESTACCESSKEY000000000000", "TESTSECRETKEY000000000000");
    let got = s.token_at(
        "pacz-cbps-dmz-stg",
        "f14d1f59-767b-404e-93b0-82454786d981",
        1732761165,
    );
    let want = "TESTACCESSKEY000000000000:XVLxWj6SoN9LF9ufU-6dP1tHbGE=:eyJzY29wZSI6InBhY3otY2Jwcy1kbXotc3RnOmYxNGQxZjU5LTc2N2ItNDA0ZS05M2IwLTgyNDU0Nzg2ZDk4MSIsImRlYWRsaW5lIjoxNzMyNzYxMTY1fQ==";
    assert_eq!(got, want);
}
