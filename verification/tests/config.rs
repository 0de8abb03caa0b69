use mquictt::config::{
    client_config, first_key, server_config, Auth, AuthFiles, Config, FileRead,
};
use mquictt::Error;

const ALPHABET: &[u8] = b"ABCDEFGHIJKLMNOPQRSTUVWXYZabcdefghijklmnopqrstuvwxyz0123456789+/";

fn base64(bytes: &[u8]) -> String {
    let mut text = String::new();
    for chunk in bytes.chunks(3) {
        let mut word = [0u8; 3];
        word[..chunk.len()].copy_from_slice(chunk);
        let n = (word[0] as usize) << 16 | (word[1] as usize) << 8 | word[2] as usize;
        for i in 0..4 {
            if i <= chunk.len() {
                text.push(ALPHABET[n >> (18 - 6 * i) & 63] as char);
            } else {
                text.push('=');
            }
        }
    }
    text
}

fn section(kind: &str, der: &[u8]) -> String {
    format!(
        "-----BEGIN {}-----\n{}\n-----END {}-----\n",
        kind,
        base64(der),
        kind
    )
}

fn der(tag: u8, content: &[u8]) -> Vec<u8> {
    let mut bytes = vec![tag, content.len() as u8];
    bytes.extend_from_slice(content);
    bytes
}

/// The least that can be taken as a certificate authority.
fn authority() -> Vec<u8> {
    let mut tbs = der(2, &[1]);
    for name in [&b""[..], &b""[..], &b""[..], &b"root"[..], &b"spki"[..]] {
        tbs.extend_from_slice(&der(0x30, name));
    }
    let mut cert = der(0x30, &tbs);
    cert.extend_from_slice(&der(0x30, b""));
    cert.extend_from_slice(&der(3, &[0]));
    der(0x30, &cert)
}

/// A key to sign with, made of a fixed seed.
fn signing_key() -> Vec<u8> {
    let mut key = vec![
        0x30, 0x2E, 2, 1, 0, 0x30, 5, 6, 3, 0x2B, 0x65, 0x70, 4, 0x22, 4, 0x20,
    ];
    key.extend_from_slice(&[7; 32]);
    key
}

fn key_kind() -> String {
    format!("RSA {} KEY", "PRIVATE")
}

fn content(text: String) -> FileRead {
    FileRead::Content(text.into_bytes())
}

fn missing() -> std::io::Error {
    std::io::Error::new(std::io::ErrorKind::NotFound, "missing")
}

fn files() -> AuthFiles {
    AuthFiles {
        cert: content(section("CERTIFICATE", b"leaf") + &section("CERTIFICATE", b"issuer")),
        key: content(section(&key_kind(), &signing_key())),
        ca: content(section("CERTIFICATE", &authority())),
    }
}

#[test]
fn empty_config_has_no_auth() {
    assert!(Config::empty().auth.is_none());
}

#[test]
fn certificates_come_in_order() {
    let certs = Auth::get_certs(files().cert).unwrap();
    assert_eq!(certs, vec![b"leaf".to_vec(), b"issuer".to_vec()]);
    assert!(Auth::get_certs(content(String::new())).unwrap().is_empty());
}

#[test]
fn file_without_an_end_marker_is_an_io_error() {
    let text = "-----BEGIN CERTIFICATE-----\nbGVhZg==\n".to_string();
    assert!(matches!(
        Auth::get_certs(content(text.clone())),
        Err(Error::Io(_))
    ));
    assert!(matches!(Auth::get_key(content(text)), Err(Error::Io(_))));
}

#[test]
fn files_that_cannot_be_read_are_io_errors() {
    for file in [
        FileRead::NotOpened(missing()),
        FileRead::NotRead(missing()),
    ] {
        match Auth::get_certs(file) {
            Err(Error::Io(e)) => assert_eq!(e.kind(), std::io::ErrorKind::NotFound),
            other => panic!("{:?}", other),
        }
    }
    assert!(matches!(
        Auth::get_key(FileRead::NotOpened(missing())),
        Err(Error::Io(_))
    ));
    assert!(matches!(
        Auth::get_ca(FileRead::NotOpened(missing())),
        Err(Error::Io(_))
    ));
    assert!(matches!(
        Auth::get_ca(FileRead::NotRead(missing())),
        Err(Error::MissingCertificate)
    ));
}

#[test]
fn first_key_counts() {
    let text = section(&key_kind(), b"one") + &section(&key_kind(), b"two");
    assert_eq!(Auth::get_key(content(text)).unwrap(), b"one".to_vec());
    assert_eq!(
        first_key(vec![b"a".to_vec(), b"b".to_vec()]).unwrap(),
        b"a".to_vec()
    );
}

#[test]
fn file_without_a_key_misses_it() {
    assert!(matches!(
        Auth::get_key(content(section("CERTIFICATE", b"leaf"))),
        Err(Error::MissingCertificate)
    ));
    assert!(matches!(
        first_key(Vec::new()),
        Err(Error::MissingCertificate)
    ));
}

#[test]
fn authorities_are_added() {
    let store = Auth::get_ca(files().ca).unwrap();
    assert_eq!(store.len(), 1);
    let text = section("CERTIFICATE", b"unfit") + &section("CERTIFICATE", &authority());
    assert_eq!(Auth::get_ca(content(text)).unwrap().len(), 1);
    let broken = "-----BEGIN CERTIFICATE-----\n!\n-----END CERTIFICATE-----\n".to_string();
    assert!(matches!(
        Auth::get_ca(content(broken)),
        Err(Error::MissingCertificate)
    ));
}

#[test]
fn client_settings_come_of_the_files() {
    let config = Auth::client_config(files()).unwrap();
    assert_eq!(config.root_store.len(), 1);
    assert_eq!(config.versions, vec![rustls::ProtocolVersion::TLSv1_3]);
    assert!(config.client_auth_cert_resolver.has_certs());
    let shown = config.client_auth_cert_resolver.resolve(&[], &[]).unwrap();
    assert_eq!(
        shown.cert,
        vec![
            rustls::Certificate(b"leaf".to_vec()),
            rustls::Certificate(b"issuer".to_vec())
        ]
    );
}

#[test]
fn server_settings_come_of_the_files() {
    let config = Auth::server_config(files()).unwrap();
    assert_eq!(config.versions, vec![rustls::ProtocolVersion::TLSv1_3]);
    assert!(config.get_verifier().offer_client_auth());
    assert_eq!(
        config.get_verifier().client_auth_mandatory(None),
        Some(false)
    );
    assert_eq!(
        config
            .get_verifier()
            .client_auth_root_subjects(None)
            .unwrap()
            .len(),
        1
    );
}

#[test]
fn unsupported_key_is_refused() {
    let mut with_bad_key = files();
    with_bad_key.key = content(section(&key_kind(), b"no key"));
    assert!(matches!(
        Auth::client_config(with_bad_key),
        Err(Error::Rustls(_))
    ));
    let mut with_bad_key = files();
    with_bad_key.key = content(section(&key_kind(), b"no key"));
    assert!(matches!(
        Auth::server_config(with_bad_key),
        Err(Error::Rustls(_))
    ));
}

#[test]
fn first_file_that_fails_decides() {
    let all = AuthFiles {
        cert: FileRead::NotOpened(missing()),
        key: content(String::new()),
        ca: FileRead::NotRead(missing()),
    };
    assert!(matches!(Auth::client_config(all), Err(Error::Io(_))));
    let mut some = files();
    some.key = content(String::new());
    some.ca = FileRead::NotOpened(missing());
    assert!(matches!(
        Auth::server_config(some),
        Err(Error::MissingCertificate)
    ));
    let mut ca = files();
    ca.ca = FileRead::NotOpened(missing());
    assert!(matches!(Auth::client_config(ca), Err(Error::Io(_))));
}

#[test]
fn config_without_files_has_no_settings() {
    assert!(matches!(client_config(None), Ok(None)));
    assert!(matches!(server_config(None), Ok(None)));
    let client = client_config(Some(files())).unwrap().unwrap();
    assert_eq!(client.root_store.len(), 1);
    let server = server_config(Some(files())).unwrap().unwrap();
    assert_eq!(server.versions, vec![rustls::ProtocolVersion::TLSv1_3]);
    let mut without_key = files();
    without_key.key = content(String::new());
    assert!(matches!(
        client_config(Some(without_key)),
        Err(Error::MissingCertificate)
    ));
}
