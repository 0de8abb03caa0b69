//! The configuration of a server or a client, and the TLS settings that come of it.

use std::sync::Arc;

use rustls::ClientConfig as TlsClientConfig;
use rustls::RootCertStore;
use rustls::ServerConfig as TlsServerConfig;
use vstd::prelude::*;

use crate::error::Error;

verus! {

/// `rustls::RootCertStore`, a list of certificate authorities.
#[verifier::external_type_specification]
#[verifier::external_body]
pub struct ExRootCertStore(RootCertStore);

/// `rustls::ClientConfig`, the TLS settings of a client.
#[verifier::external_type_specification]
#[verifier::external_body]
pub struct ExTlsClientConfig(TlsClientConfig);

/// `rustls::ServerConfig`, the TLS settings of a server.
#[verifier::external_type_specification]
#[verifier::external_body]
pub struct ExTlsServerConfig(TlsServerConfig);

/// The configuration to launching either server or client. Can create an empty config using
/// [`empty()`].
///
/// [`empty()`]: Config::empty
#[derive(Debug, Clone)]
pub struct Config {
    /// paths to files needed for authentication.
    pub auth: Option<Auth>,
}

/// The files that a server or a client authenticates itself and the other side with.
#[derive(Debug, Clone)]
pub struct Auth {
    /// The certificate authorities, in PEM format.
    pub ca_cert_file: String,
    /// The certificate and those that lead to an authority, in PEM format.
    pub cert_file: String,
    /// The private key of the certificate, in PEM format.
    pub key_file: String,
}

impl Config {
    /// Create an empty config with no authentication.
    pub fn empty() -> (r: Arc<Config>)
        ensures
            r.auth is None,
    {
        Arc::new(Config { auth: None })
    }
}

/// What came of reading a file.
#[derive(Debug)]
pub enum FileRead {
    /// What is in it.
    Content(Vec<u8>),
    /// It could not be opened.
    NotOpened(std::io::Error),
    /// It was opened, and could not be read.
    NotRead(std::io::Error),
}

/// What came of reading the files that an [`Auth`] names.
#[derive(Debug)]
pub struct AuthFiles {
    pub cert: FileRead,
    pub key: FileRead,
    pub ca: FileRead,
}

/// A version of TLS.
#[derive(Debug, Clone, Copy, PartialEq, Eq, Structural)]
pub enum TlsVersion {
    V1_2,
    V1_3,
}

/// TLS settings.
pub struct TlsSettings {
    /// The other side may show no certificate. One that it does show has to be vouched for in any
    /// case.
    pub anonymous: bool,
    /// The certificate authorities that the other side may be vouched for by.
    pub roots: Seq<Seq<u8>>,
    /// The certificates that are shown to the other side, and the key of the first of them.
    pub identity: Option<(Seq<Seq<u8>>, Seq<u8>)>,
    /// The versions of TLS that may be spoken.
    pub versions: Seq<TlsVersion>,
}

/// Why there are no TLS settings.
pub enum TlsFailure {
    /// A file could not be opened or read, with this error.
    File(std::io::Error),
    /// A file is not in PEM format.
    Format,
    /// There is no private key, or there are no certificate authorities.
    MissingCertificate,
    /// The private key is of no kind that is supported.
    Key,
}

impl TlsFailure {
    /// The error that says so.
    pub open spec fn shown(self, e: Error) -> bool {
        match self {
            TlsFailure::File(io) => e == Error::Io(io),
            TlsFailure::Format => e is Io,
            TlsFailure::MissingCertificate => e is MissingCertificate,
            TlsFailure::Key => e is Rustls,
        }
    }
}

/// The bytes of each.
pub open spec fn contents(v: Seq<Vec<u8>>) -> Seq<Seq<u8>> {
    v.map_values(|c: Vec<u8>| c@)
}

/// The certificates that `rustls_pemfile::certs` finds in a file, in order, unless the file is not
/// in PEM format.
pub uninterp spec fn pem_certs(pem: Seq<u8>) -> Option<Seq<Seq<u8>>>;

/// The private keys that `rustls_pemfile::rsa_private_keys` finds in a file, in order, unless the
/// file is not in PEM format.
pub uninterp spec fn pem_rsa_keys(pem: Seq<u8>) -> Option<Seq<Seq<u8>>>;

/// The certificate authorities that `RootCertStore::add_pem_file` finds in a file, in order, each
/// as the bytes that it is known by, unless the file is not in PEM format.
pub uninterp spec fn pem_roots(pem: Seq<u8>) -> Option<Seq<Seq<u8>>>;

/// The certificate authorities in a store, in order, each as the bytes that it is known by.
pub uninterp spec fn roots(store: RootCertStore) -> Seq<Seq<u8>>;

/// `rustls::sign::any_supported_type` takes the private key: it is of a kind that `rustls` can sign
/// with. This is a matter of the bytes of the key, on a machine whose source of random numbers
/// works: without one, an ECDSA key is refused whatever its bytes are.
pub uninterp spec fn supported_key(key: Seq<u8>) -> bool;

/// The settings in a `rustls::ClientConfig`.
pub uninterp spec fn client_settings(config: TlsClientConfig) -> TlsSettings;

/// The settings in a `rustls::ServerConfig`.
pub uninterp spec fn server_settings(config: TlsServerConfig) -> TlsSettings;

/// `rustls_pemfile::certs` gives the certificates in a file in PEM format, from its bytes alone.
#[verifier::external_body]
fn read_certs(pem: &[u8]) -> (r: Result<Vec<Vec<u8>>, std::io::Error>)
    ensures
        match r {
            Ok(certs) => pem_certs(pem@) == Some(contents(certs@)),
            Err(_) => pem_certs(pem@) is None,
        },
{
    let mut pem = pem;
    rustls_pemfile::certs(&mut pem)
}

/// `rustls_pemfile::rsa_private_keys` gives the RSA keys in a file in PEM format, from its bytes
/// alone.
#[verifier::external_body]
fn read_rsa_keys(pem: &[u8]) -> (r: Result<Vec<Vec<u8>>, std::io::Error>)
    ensures
        match r {
            Ok(keys) => pem_rsa_keys(pem@) == Some(contents(keys@)),
            Err(_) => pem_rsa_keys(pem@) is None,
        },
{
    let mut pem = pem;
    rustls_pemfile::rsa_private_keys(&mut pem)
}

/// `RootCertStore::empty` gives a store without authorities.
pub assume_specification[ RootCertStore::empty ]() -> (store: RootCertStore)
    ensures
        roots(store) == Seq::<Seq<u8>>::empty(),
;

/// `RootCertStore::add_pem_file` puts the authorities in a file in PEM format behind those that
/// are in the store, and passes over certificates that are not fit to be one. It leaves the store
/// as it is where the file is not in PEM format.
#[verifier::external_body]
fn add_pem_file(store: &mut RootCertStore, pem: &[u8]) -> (r: bool)
    ensures
        match pem_roots(pem@) {
            Some(added) => r && roots(*final(store)) == roots(*old(store)) + added,
            None => !r && roots(*final(store)) == roots(*old(store)),
        },
{
    let mut pem = pem;
    store.add_pem_file(&mut pem).is_ok()
}

/// `rustls::ClientConfig::default` wants a certificate from the server, trusts no authority, shows
/// no certificate, and speaks both versions of TLS.
#[verifier::external_body]
fn client_default() -> (r: TlsClientConfig)
    ensures
        client_settings(r) == (TlsSettings {
            anonymous: false,
            roots: Seq::empty(),
            identity: None,
            versions: seq![TlsVersion::V1_3, TlsVersion::V1_2],
        }),
{
    TlsClientConfig::default()
}

/// Sets `rustls::ClientConfig::root_store`, and no other setting.
#[verifier::external_body]
fn client_roots(config: &mut TlsClientConfig, store: RootCertStore)
    ensures
        client_settings(*final(config)) == (TlsSettings {
            roots: roots(store),
            ..client_settings(*old(config))
        }),
{
    config.root_store = store;
}

/// `rustls::ClientConfig::set_single_client_cert` sets the certificates that are shown and their
/// key, and no other setting. It refuses a key that is not supported, and then sets nothing.
#[verifier::external_body]
fn client_identity(config: &mut TlsClientConfig, certs: Vec<Vec<u8>>, key: Vec<u8>) -> (r: Result<
    (),
    rustls::TLSError,
>)
    ensures
        r is Ok == supported_key(key@),
        client_settings(*final(config)) == (if supported_key(key@) {
            TlsSettings {
                identity: Some((contents(certs@), key@)),
                ..client_settings(*old(config))
            }
        } else {
            client_settings(*old(config))
        }),
{
    let certs = certs.into_iter().map(|cert| rustls::Certificate(cert)).collect();
    config.set_single_client_cert(certs, rustls::PrivateKey(key))
}

/// Sets `rustls::ClientConfig::versions`, and no other setting.
#[verifier::external_body]
fn client_versions(config: &mut TlsClientConfig, versions: Vec<TlsVersion>)
    ensures
        client_settings(*final(config)) == (TlsSettings {
            versions: versions@,
            ..client_settings(*old(config))
        }),
{
    config.versions = versions.into_iter().map(|version| match version {
        TlsVersion::V1_2 => rustls::ProtocolVersion::TLSv1_2,
        TlsVersion::V1_3 => rustls::ProtocolVersion::TLSv1_3,
    }).collect();
}

/// `rustls::ServerConfig::new`, with the verifier that
/// `rustls::AllowAnyAnonymousOrAuthenticatedClient::new` makes, lets in clients that show no
/// certificate and those that an authority in the store vouches for, shows no certificate, and
/// speaks both versions of TLS.
#[verifier::external_body]
fn server_for_anonymous_or_authenticated(store: RootCertStore) -> (r: TlsServerConfig)
    ensures
        server_settings(r) == (TlsSettings {
            anonymous: true,
            roots: roots(store),
            identity: None,
            versions: seq![TlsVersion::V1_3, TlsVersion::V1_2],
        }),
{
    TlsServerConfig::new(rustls::AllowAnyAnonymousOrAuthenticatedClient::new(store))
}

/// `rustls::ServerConfig::set_single_cert` sets the certificates that are shown and their key, and
/// no other setting. It refuses a key that is not supported, and then sets nothing.
#[verifier::external_body]
fn server_identity(config: &mut TlsServerConfig, certs: Vec<Vec<u8>>, key: Vec<u8>) -> (r: Result<
    (),
    rustls::TLSError,
>)
    ensures
        r is Ok == supported_key(key@),
        server_settings(*final(config)) == (if supported_key(key@) {
            TlsSettings {
                identity: Some((contents(certs@), key@)),
                ..server_settings(*old(config))
            }
        } else {
            server_settings(*old(config))
        }),
{
    let certs = certs.into_iter().map(|cert| rustls::Certificate(cert)).collect();
    config.set_single_cert(certs, rustls::PrivateKey(key))
}

/// Sets `rustls::ServerConfig::versions`, and no other setting.
#[verifier::external_body]
fn server_versions(config: &mut TlsServerConfig, versions: Vec<TlsVersion>)
    ensures
        server_settings(*final(config)) == (TlsSettings {
            versions: versions@,
            ..server_settings(*old(config))
        }),
{
    config.versions = versions.into_iter().map(|version| match version {
        TlsVersion::V1_2 => rustls::ProtocolVersion::TLSv1_2,
        TlsVersion::V1_3 => rustls::ProtocolVersion::TLSv1_3,
    }).collect();
}

/// What is in a file, where it could be opened and read.
pub open spec fn file_of(file: FileRead) -> Result<Seq<u8>, TlsFailure> {
    match file {
        FileRead::Content(content) => Ok(content@),
        FileRead::NotOpened(e) => Err(TlsFailure::File(e)),
        FileRead::NotRead(e) => Err(TlsFailure::File(e)),
    }
}

/// The certificates in a file, where `found` are those that its bytes hold.
pub open spec fn certs_of(file: FileRead, found: Option<Seq<Seq<u8>>>) -> Result<
    Seq<Seq<u8>>,
    TlsFailure,
> {
    match file_of(file) {
        Err(e) => Err(e),
        Ok(_) => match found {
            Some(certs) => Ok(certs),
            None => Err(TlsFailure::Format),
        },
    }
}

/// The private key in a file, where `found` are the keys that its bytes hold: the first of them.
pub open spec fn key_of(file: FileRead, found: Option<Seq<Seq<u8>>>) -> Result<
    Seq<u8>,
    TlsFailure,
> {
    match certs_of(file, found) {
        Err(e) => Err(e),
        Ok(keys) => if keys.len() == 0 {
            Err(TlsFailure::MissingCertificate)
        } else {
            Ok(keys[0])
        },
    }
}

/// The certificate authorities in a file, where `found` are those that its bytes hold. A file that
/// was opened and cannot be read has none, like one that is not in PEM format.
pub open spec fn ca_of(file: FileRead, found: Option<Seq<Seq<u8>>>) -> Result<
    Seq<Seq<u8>>,
    TlsFailure,
> {
    match file {
        FileRead::NotOpened(e) => Err(TlsFailure::File(e)),
        FileRead::NotRead(_) => Err(TlsFailure::MissingCertificate),
        FileRead::Content(_) => match found {
            Some(found) => Ok(found),
            None => Err(TlsFailure::MissingCertificate),
        },
    }
}

/// The bytes of a file that could be read.
pub open spec fn bytes_of(file: FileRead) -> Seq<u8> {
    match file {
        FileRead::Content(content) => content@,
        _ => Seq::empty(),
    }
}

/// The settings that come of the files: their certificates, their key and their authorities are
/// looked at in this order, and the first that fails decides. Only version 1.3 of TLS is spoken.
/// A server lets in clients that show no certificate; a client wants one from its server.
pub open spec fn settings_of(
    is_server: bool,
    certs: Result<Seq<Seq<u8>>, TlsFailure>,
    key: Result<Seq<u8>, TlsFailure>,
    ca: Result<Seq<Seq<u8>>, TlsFailure>,
    supported: bool,
) -> Result<TlsSettings, TlsFailure> {
    match (certs, key, ca) {
        (Err(e), _, _) => Err(e),
        (_, Err(e), _) => Err(e),
        (_, _, Err(e)) => Err(e),
        (Ok(certs), Ok(key), Ok(ca)) => if supported {
            Ok(
                TlsSettings {
                    anonymous: is_server,
                    roots: ca,
                    identity: Some((certs, key)),
                    versions: seq![TlsVersion::V1_3],
                },
            )
        } else {
            Err(TlsFailure::Key)
        },
    }
}

/// The settings that come of the files, by what `rustls_pemfile` and `rustls` find in them.
pub open spec fn auth_settings(is_server: bool, files: AuthFiles) -> Result<
    TlsSettings,
    TlsFailure,
> {
    let key = key_of(files.key, pem_rsa_keys(bytes_of(files.key)));
    settings_of(
        is_server,
        certs_of(files.cert, pem_certs(bytes_of(files.cert))),
        key,
        ca_of(files.ca, pem_roots(bytes_of(files.ca))),
        key matches Ok(key) && supported_key(key),
    )
}

/// The first of the keys that were found.
pub fn first_key(keys: Vec<Vec<u8>>) -> (r: Result<Vec<u8>, Error>)
    ensures
        if keys@.len() == 0 {
            r matches Err(Error::MissingCertificate)
        } else {
            r matches Ok(key) && key@ == keys@[0]@
        },
{
    if keys.len() == 0 {
        return Err(Error::MissingCertificate);
    }
    let mut keys = keys;
    Ok(keys.swap_remove(0))
}

impl Auth {
    /// Get certificates from cert file
    pub fn get_certs(cert_file: FileRead) -> (r: Result<Vec<Vec<u8>>, Error>)
        ensures
            match (r, certs_of(cert_file, pem_certs(bytes_of(cert_file)))) {
                (Ok(certs), Ok(expected)) => contents(certs@) == expected,
                (Err(e), Err(failure)) => failure.shown(e),
                _ => false,
            },
    {
        match cert_file {
            FileRead::Content(pem) => match read_certs(pem.as_slice()) {
                Ok(certs) => Ok(certs),
                Err(e) => Err(Error::Io(e)),
            },
            FileRead::NotOpened(e) => Err(Error::Io(e)),
            FileRead::NotRead(e) => Err(Error::Io(e)),
        }
    }

    /// Get the private key from key file
    pub fn get_key(key_file: FileRead) -> (r: Result<Vec<u8>, Error>)
        ensures
            match (r, key_of(key_file, pem_rsa_keys(bytes_of(key_file)))) {
                (Ok(key), Ok(expected)) => key@ == expected,
                (Err(e), Err(failure)) => failure.shown(e),
                _ => false,
            },
    {
        match key_file {
            FileRead::Content(pem) => match read_rsa_keys(pem.as_slice()) {
                Ok(keys) => first_key(keys),
                Err(e) => Err(Error::Io(e)),
            },
            FileRead::NotOpened(e) => Err(Error::Io(e)),
            FileRead::NotRead(e) => Err(Error::Io(e)),
        }
    }

    /// Get CA root files
    pub fn get_ca(ca_file: FileRead) -> (r: Result<RootCertStore, Error>)
        ensures
            match (r, ca_of(ca_file, pem_roots(bytes_of(ca_file)))) {
                (Ok(store), Ok(expected)) => roots(store) == expected,
                (Err(e), Err(failure)) => failure.shown(e),
                _ => false,
            },
    {
        match ca_file {
            FileRead::Content(pem) => {
                let mut store = RootCertStore::empty();
                if add_pem_file(&mut store, pem.as_slice()) {
                    Ok(store)
                } else {
                    Err(Error::MissingCertificate)
                }
            },
            FileRead::NotOpened(e) => Err(Error::Io(e)),
            FileRead::NotRead(_) => Err(Error::MissingCertificate),
        }
    }

    /// The TLS settings of a client that authenticates itself with these files.
    pub fn client_config(files: AuthFiles) -> (r: Result<TlsClientConfig, Error>)
        ensures
            match (r, auth_settings(false, files)) {
                (Ok(config), Ok(expected)) => client_settings(config) == expected,
                (Err(e), Err(failure)) => failure.shown(e),
                _ => false,
            },
    {
        let certs = match Auth::get_certs(files.cert) {
            Ok(certs) => certs,
            Err(e) => return Err(e),
        };
        let key = match Auth::get_key(files.key) {
            Ok(key) => key,
            Err(e) => return Err(e),
        };
        let ca_root = match Auth::get_ca(files.ca) {
            Ok(store) => store,
            Err(e) => return Err(e),
        };

        let mut client_config = client_default();
        client_roots(&mut client_config, ca_root);
        match client_identity(&mut client_config, certs, key) {
            Ok(()) => {},
            Err(e) => return Err(Error::Rustls(e)),
        }
        let versions = vec![TlsVersion::V1_3];
        assert(versions@ == seq![TlsVersion::V1_3]);
        client_versions(&mut client_config, versions);
        Ok(client_config)
    }

    /// The TLS settings of a server that authenticates itself with these files. Clients may show a
    /// certificate, and need not.
    pub fn server_config(files: AuthFiles) -> (r: Result<TlsServerConfig, Error>)
        ensures
            match (r, auth_settings(true, files)) {
                (Ok(config), Ok(expected)) => server_settings(config) == expected,
                (Err(e), Err(failure)) => failure.shown(e),
                _ => false,
            },
    {
        let certs = match Auth::get_certs(files.cert) {
            Ok(certs) => certs,
            Err(e) => return Err(e),
        };
        let key = match Auth::get_key(files.key) {
            Ok(key) => key,
            Err(e) => return Err(e),
        };
        let ca_root = match Auth::get_ca(files.ca) {
            Ok(store) => store,
            Err(e) => return Err(e),
        };

        let mut config = server_for_anonymous_or_authenticated(ca_root);
        match server_identity(&mut config, certs, key) {
            Ok(()) => {},
            Err(e) => return Err(Error::Rustls(e)),
        }
        let versions = vec![TlsVersion::V1_3];
        assert(versions@ == seq![TlsVersion::V1_3]);
        server_versions(&mut config, versions);
        Ok(config)
    }
}

/// The TLS settings that a client connects with: those that come of the files, if its configuration
/// names files, and otherwise none, so that those of the endpoint stand.
pub fn client_config(files: Option<AuthFiles>) -> (r: Result<Option<TlsClientConfig>, Error>)
    ensures
        match files {
            None => r matches Ok(None),
            Some(files) => match (r, auth_settings(false, files)) {
                (Ok(Some(config)), Ok(expected)) => client_settings(config) == expected,
                (Err(e), Err(failure)) => failure.shown(e),
                _ => false,
            },
        },
{
    match files {
        None => Ok(None),
        Some(files) => match Auth::client_config(files) {
            Ok(config) => Ok(Some(config)),
            Err(e) => Err(e),
        },
    }
}

/// The TLS settings that a server listens with: those that come of the files, if its configuration
/// names files, and otherwise none, so that those of the endpoint stand.
pub fn server_config(files: Option<AuthFiles>) -> (r: Result<Option<TlsServerConfig>, Error>)
    ensures
        match files {
            None => r matches Ok(None),
            Some(files) => match (r, auth_settings(true, files)) {
                (Ok(Some(config)), Ok(expected)) => server_settings(config) == expected,
                (Err(e), Err(failure)) => failure.shown(e),
                _ => false,
            },
        },
{
    match files {
        None => Ok(None),
        Some(files) => match Auth::server_config(files) {
            Ok(config) => Ok(Some(config)),
            Err(e) => Err(e),
        },
    }
}

} // verus!
