use tunl::common::hash::kdf;

fn hex(bytes: &[u8]) -> String {
    bytes.iter().map(|byte| format!("{:02x}", byte)).collect()
}

#[test]
fn kdf_under_the_root_key_alone() {
    assert_eq!(
        hex(&kdf(b"Demo Key for KDF Value Test", &[])),
        "5451591560e05bd6f1e3c32b90469d9c924859a1909594c88ce9f67a6cb47f14"
    );
}

#[test]
fn kdf_along_a_path() {
    let path: [&[u8]; 3] = [
        b"Demo Path for KDF Value Test",
        b"Demo Path for KDF Value Test2",
        b"Demo Path for KDF Value Test3",
    ];
    assert_eq!(
        hex(&kdf(b"Demo Key for KDF Value Test", &path)),
        "53e9d7e1bd7bd25022b71ead07d8a596efc8a845c7888652fd684b4903dc8892"
    );
}

#[test]
fn kdf_hashes_a_key_longer_than_a_block() {
    let long = [b'x'; 65];
    assert_eq!(
        hex(&kdf(b"key", &[&long])),
        "b178d3bafa0153248220c792fcc43762ce146caa09ba165a974a496dad5df5d4"
    );
}
