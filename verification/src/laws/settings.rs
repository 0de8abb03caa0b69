//! What TLS settings always hold.

use vstd::prelude::*;

use crate::config::{
    auth_settings, bytes_of, ca_of, certs_of, key_of, pem_certs, pem_roots, pem_rsa_keys,
    supported_key, AuthFiles, FileRead, TlsFailure, TlsVersion,
};
use crate::error::Error;

verus! {

/// Whatever the files are, TLS settings that come of them have something to show to the other side,
/// and speak version 1.3 of TLS only.
pub proof fn only_version_1_3(is_server: bool, files: AuthFiles)
    ensures
        auth_settings(is_server, files) matches Ok(settings) ==> settings.identity is Some
            && settings.versions == seq![TlsVersion::V1_3],
{
}

/// A server and a client with the same files get the same settings, but for this: a server lets in
/// clients that show no certificate, and a client does not take a server that shows none. Where the
/// files are not fit for the one, they are not fit for the other.
pub proof fn only_clients_are_anonymous(files: AuthFiles)
    ensures
        match (auth_settings(true, files), auth_settings(false, files)) {
            (Ok(server), Ok(client)) => {
                &&& server.anonymous
                &&& !client.anonymous
                &&& server.roots == client.roots
                &&& server.identity == client.identity
            },
            (Err(e), Err(other)) => e == other,
            _ => false,
        },
{
}

/// Files that can be read and hold what they should give settings: all the certificates that were
/// found are shown, be there many, one or none, with the first of the keys, and all the authorities
/// that were found are the ones that the other side may be vouched for by.
pub proof fn good_files_give_settings(
    is_server: bool,
    files: AuthFiles,
    cert: Vec<u8>,
    key: Vec<u8>,
    ca: Vec<u8>,
    certs: Seq<Seq<u8>>,
    keys: Seq<Seq<u8>>,
    authorities: Seq<Seq<u8>>,
)
    requires
        files.cert == FileRead::Content(cert),
        files.key == FileRead::Content(key),
        files.ca == FileRead::Content(ca),
        pem_certs(cert@) == Some(certs),
        pem_rsa_keys(key@) == Some(keys),
        pem_roots(ca@) == Some(authorities),
        keys.len() >= 1,
        supported_key(keys[0]),
    ensures
        ({
            &&& auth_settings(is_server, files) matches Ok(settings)
            &&& settings.identity == Some((certs, keys[0]))
            &&& settings.roots == authorities
            &&& settings.versions == seq![TlsVersion::V1_3]
            &&& settings.anonymous == is_server
        }),
{
}

/// There are no settings exactly where one of the files is not fit, or the key is not supported;
/// and the first of the certificates, the key, the authorities and the support for the key that
/// fails says why.
pub proof fn bad_files_say_why(is_server: bool, files: AuthFiles)
    ensures
        ({
            let settings = auth_settings(is_server, files);
            let certs = files.cert matches FileRead::Content(pem) && pem_certs(pem@) is Some;
            let key = files.key matches FileRead::Content(pem) && pem_rsa_keys(pem@) matches Some(
                keys,
            ) && keys.len() >= 1;
            let ca = files.ca matches FileRead::Content(pem) && pem_roots(pem@) is Some;
            let supported = files.key matches FileRead::Content(pem) && pem_rsa_keys(
                pem@,
            ) matches Some(keys) && supported_key(keys[0]);
            &&& settings is Ok <==> certs && key && ca && supported
            &&& !certs ==> match files.cert {
                FileRead::NotOpened(e) => settings->Err_0 == TlsFailure::File(e),
                FileRead::NotRead(e) => settings->Err_0 == TlsFailure::File(e),
                FileRead::Content(_) => settings->Err_0 == TlsFailure::Format,
            }
            &&& certs && !key ==> match files.key {
                FileRead::NotOpened(e) => settings->Err_0 == TlsFailure::File(e),
                FileRead::NotRead(e) => settings->Err_0 == TlsFailure::File(e),
                FileRead::Content(pem) => settings->Err_0 == if pem_rsa_keys(pem@) is None {
                    TlsFailure::Format
                } else {
                    TlsFailure::MissingCertificate
                },
            }
            &&& certs && key && !ca ==> match files.ca {
                FileRead::NotOpened(e) => settings->Err_0 == TlsFailure::File(e),
                _ => settings->Err_0 == TlsFailure::MissingCertificate,
            }
            &&& certs && key && ca && !supported ==> settings->Err_0 == TlsFailure::Key
        }),
{
}

/// Each failure comes out as an error of its own kind, and as no other: a file that could not be
/// opened or read as the error that it gave.
pub proof fn failures_are_told_apart(io: std::io::Error, e: Error)
    ensures
        TlsFailure::File(io).shown(e) <==> e == Error::Io(io),
        TlsFailure::Format.shown(e) <==> e is Io,
        TlsFailure::MissingCertificate.shown(e) <==> e is MissingCertificate,
        TlsFailure::Key.shown(e) <==> e is Rustls,
{
}

/// What each file gives by itself: all the certificates in the order in which they were found, the
/// first of the keys, all the authorities.
pub proof fn each_file_by_itself(pem: Vec<u8>, io: std::io::Error)
    ensures
        ({
            let file = FileRead::Content(pem);
            let found = pem_certs(bytes_of(file));
            &&& found == pem_certs(pem@)
            &&& found matches Some(certs) ==> certs_of(file, found) == Ok::<_, TlsFailure>(certs)
            &&& found is None ==> certs_of(file, found) == Err::<Seq<Seq<u8>>, _>(
                TlsFailure::Format,
            )
        }),
        ({
            let file = FileRead::Content(pem);
            let found = pem_rsa_keys(bytes_of(file));
            &&& found == pem_rsa_keys(pem@)
            &&& found matches Some(keys) ==> key_of(file, found) == if keys.len() >= 1 {
                Ok::<_, TlsFailure>(keys[0])
            } else {
                Err(TlsFailure::MissingCertificate)
            }
            &&& found is None ==> key_of(file, found) == Err::<Seq<u8>, _>(TlsFailure::Format)
        }),
        ({
            let file = FileRead::Content(pem);
            let found = pem_roots(bytes_of(file));
            &&& found == pem_roots(pem@)
            &&& found matches Some(roots) ==> ca_of(file, found) == Ok::<_, TlsFailure>(roots)
            &&& found is None ==> ca_of(file, found) == Err::<Seq<Seq<u8>>, _>(
                TlsFailure::MissingCertificate,
            )
        }),
        forall|found: Option<Seq<Seq<u8>>>| #[trigger]
            certs_of(FileRead::NotOpened(io), found) == Err::<Seq<Seq<u8>>, _>(
                TlsFailure::File(io),
            ),
        forall|found: Option<Seq<Seq<u8>>>| #[trigger]
            certs_of(FileRead::NotRead(io), found) == Err::<Seq<Seq<u8>>, _>(TlsFailure::File(io)),
        forall|found: Option<Seq<Seq<u8>>>| #[trigger]
            key_of(FileRead::NotOpened(io), found) == Err::<Seq<u8>, _>(TlsFailure::File(io)),
        forall|found: Option<Seq<Seq<u8>>>| #[trigger]
            key_of(FileRead::NotRead(io), found) == Err::<Seq<u8>, _>(TlsFailure::File(io)),
        forall|found: Option<Seq<Seq<u8>>>| #[trigger]
            ca_of(FileRead::NotOpened(io), found) == Err::<Seq<Seq<u8>>, _>(TlsFailure::File(io)),
        forall|found: Option<Seq<Seq<u8>>>| #[trigger]
            ca_of(FileRead::NotRead(io), found) == Err::<Seq<Seq<u8>>, _>(
                TlsFailure::MissingCertificate,
            ),
{
}

} // verus!
