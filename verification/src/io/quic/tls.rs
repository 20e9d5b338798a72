//! Keys and certificates.

use vstd::prelude::*;

verus! {

/// The PKCS #8 keys in a PEM file, or nothing if the file is malformed.
pub uninterp spec fn pem_pkcs8_keys(pem: Seq<u8>) -> Option<Seq<Seq<u8>>>;

/// The PKCS #1 keys in a PEM file, or nothing if the file is malformed.
pub uninterp spec fn pem_rsa_keys(pem: Seq<u8>) -> Option<Seq<Seq<u8>>>;

/// The certificates in a PEM file, or nothing if the file is malformed.
pub uninterp spec fn pem_certs(pem: Seq<u8>) -> Option<Seq<Seq<u8>>>;

/// The byte strings in a list.
pub open spec fn contents(list: Seq<Vec<u8>>) -> Seq<Seq<u8>> {
    list.map_values(|item: Vec<u8>| item@)
}

/// Calls `rustls_pemfile::pkcs8_private_keys` on the bytes of a PEM file. The result is named.
#[verifier::external_body]
fn pemfile_pkcs8(pem: &[u8]) -> (r: Option<Vec<Vec<u8>>>)
    ensures
        pem_pkcs8_keys(pem@) == (match r {
            Some(keys) => Some(contents(keys@)),
            None => None::<Seq<Seq<u8>>>,
        }),
{
    rustls_pemfile::pkcs8_private_keys(&mut &*pem).ok()
}

/// Calls `rustls_pemfile::rsa_private_keys` on the bytes of a PEM file. The result is named.
#[verifier::external_body]
fn pemfile_rsa(pem: &[u8]) -> (r: Option<Vec<Vec<u8>>>)
    ensures
        pem_rsa_keys(pem@) == (match r {
            Some(keys) => Some(contents(keys@)),
            None => None::<Seq<Seq<u8>>>,
        }),
{
    rustls_pemfile::rsa_private_keys(&mut &*pem).ok()
}

/// Calls `rustls_pemfile::certs` on the bytes of a PEM file. The result is named.
#[verifier::external_body]
fn pemfile_certs(pem: &[u8]) -> (r: Option<Vec<Vec<u8>>>)
    ensures
        pem_certs(pem@) == (match r {
            Some(certs) => Some(contents(certs@)),
            None => None::<Seq<Seq<u8>>>,
        }),
{
    rustls_pemfile::certs(&mut &*pem).ok()
}

/// Why a key or a certificate could not be had from a file.
#[derive(Clone, Copy, Debug, PartialEq, Eq, Structural)]
pub enum TlsError {
    /// The PKCS #8 part of a key file is malformed.
    MalformedPkcs8,
    /// The PKCS #1 part of a key file is malformed.
    MalformedPkcs1,
    /// A key file holds no private key.
    NoPrivateKey,
    /// A certificate file is malformed.
    InvalidCertificate,
}

/// The key in a PEM file with these PKCS #8 and PKCS #1 keys: the first of the former, or else of
/// the latter.
pub open spec fn chosen_key(
    pkcs8: Option<Seq<Seq<u8>>>,
    rsa: Option<Seq<Seq<u8>>>,
) -> Result<Seq<u8>, TlsError> {
    match pkcs8 {
        None => Err(TlsError::MalformedPkcs8),
        Some(keys) => if keys.len() > 0 {
            Ok(keys[0])
        } else {
            match rsa {
                None => Err(TlsError::MalformedPkcs1),
                Some(keys) => if keys.len() > 0 {
                    Ok(keys[0])
                } else {
                    Err(TlsError::NoPrivateKey)
                },
            }
        },
    }
}

/// The private key in a key file.
pub open spec fn private_key_in(file: Seq<u8>, is_der: bool) -> Result<Seq<u8>, TlsError> {
    if is_der {
        Ok(file)
    } else {
        chosen_key(pem_pkcs8_keys(file), pem_rsa_keys(file))
    }
}

/// The certificates in a certificate file.
pub open spec fn certificates_in(file: Seq<u8>, is_der: bool) -> Result<Seq<Seq<u8>>, TlsError> {
    if is_der {
        Ok(seq![file])
    } else {
        match pem_certs(file) {
            Some(certs) => Ok(certs),
            None => Err(TlsError::InvalidCertificate),
        }
    }
}

/// The first of a list.
fn take_first(list: Vec<Vec<u8>>) -> (r: Option<Vec<u8>>)
    ensures
        match r {
            Some(item) => contents(list@).len() > 0 && contents(list@)[0] == item@,
            None => contents(list@).len() == 0,
        },
{
    let mut list = list;
    if list.len() > 0 {
        Some(list.remove(0))
    } else {
        None
    }
}

/// Chooses a private key out of the PKCS #8 keys and the PKCS #1 keys of a PEM file.
pub fn choose_key(pkcs8: Option<Vec<Vec<u8>>>, rsa: Option<Vec<Vec<u8>>>) -> (r: Result<
    Vec<u8>,
    TlsError,
>)
    ensures
        ({
            let pkcs8_keys = match pkcs8 {
                Some(keys) => Some(contents(keys@)),
                None => None::<Seq<Seq<u8>>>,
            };
            let rsa_keys = match rsa {
                Some(keys) => Some(contents(keys@)),
                None => None::<Seq<Seq<u8>>>,
            };
            match r {
                Ok(key) => chosen_key(pkcs8_keys, rsa_keys) == Ok::<Seq<u8>, TlsError>(key@),
                Err(e) => chosen_key(pkcs8_keys, rsa_keys) == Err::<Seq<u8>, TlsError>(e),
            }
        }),
{
    let keys = match pkcs8 {
        Some(keys) => keys,
        None => return Err(TlsError::MalformedPkcs8),
    };
    if let Some(key) = take_first(keys) {
        return Ok(key);
    }
    let keys = match rsa {
        Some(keys) => keys,
        None => return Err(TlsError::MalformedPkcs1),
    };
    match take_first(keys) {
        Some(key) => Ok(key),
        None => Err(TlsError::NoPrivateKey),
    }
}

/// Whether a file whose name ends in `extension` holds a key or a certificate as it is, and is no
/// PEM file.
pub fn is_der(extension: Option<&str>) -> (r: bool)
    ensures
        r == (extension matches Some(x) && x@ == "der"@),
{
    match extension {
        Some(x) => x.to_owned().eq(&"der".to_owned()),
        None => false,
    }
}

/// The private key in a key file, which is either a key or a PEM file.
pub fn private_key(file: Vec<u8>, is_der: bool) -> (r: Result<Vec<u8>, TlsError>)
    ensures
        match r {
            Ok(key) => private_key_in(file@, is_der) == Ok::<Seq<u8>, TlsError>(key@),
            Err(e) => private_key_in(file@, is_der) == Err::<Seq<u8>, TlsError>(e),
        },
{
    if is_der {
        return Ok(file);
    }
    let pkcs8 = pemfile_pkcs8(file.as_slice());
    let rsa = pemfile_rsa(file.as_slice());
    choose_key(pkcs8, rsa)
}

/// The certificates in a certificate file, which is either a certificate or a PEM file.
pub fn certificates(file: Vec<u8>, is_der: bool) -> (r: Result<Vec<Vec<u8>>, TlsError>)
    ensures
        match r {
            Ok(certs) => certificates_in(file@, is_der) == Ok::<Seq<Seq<u8>>, TlsError>(
                contents(certs@),
            ),
            Err(e) => certificates_in(file@, is_der) == Err::<Seq<Seq<u8>>, TlsError>(e),
        },
{
    if is_der {
        let mut certs: Vec<Vec<u8>> = Vec::new();
        let ghost bytes = file@;
        certs.push(file);
        assert(contents(certs@) =~= seq![bytes]);
        return Ok(certs);
    }
    match pemfile_certs(file.as_slice()) {
        Some(certs) => Ok(certs),
        None => Err(TlsError::InvalidCertificate),
    }
}

/// The private key and the certificates of a server, out of its key file and certificate file.
/// The certificates are looked at only once there is a key.
pub fn load_selfsigned_server_cert(
    key_file: Vec<u8>,
    key_is_der: bool,
    cert_file: Vec<u8>,
    cert_is_der: bool,
) -> (r: Result<(Vec<Vec<u8>>, Vec<u8>), TlsError>)
    ensures
        match r {
            Ok((certs, key)) => {
                &&& private_key_in(key_file@, key_is_der) == Ok::<Seq<u8>, TlsError>(key@)
                &&& certificates_in(cert_file@, cert_is_der) == Ok::<Seq<Seq<u8>>, TlsError>(
                    contents(certs@),
                )
            },
            Err(e) => {
                ||| private_key_in(key_file@, key_is_der) == Err::<Seq<u8>, TlsError>(e)
                ||| {
                    &&& private_key_in(key_file@, key_is_der) is Ok
                    &&& certificates_in(cert_file@, cert_is_der) == Err::<Seq<Seq<u8>>, TlsError>(e)
                }
            },
        },
{
    let key = match private_key(key_file, key_is_der) {
        Ok(key) => key,
        Err(e) => return Err(e),
    };
    match certificates(cert_file, cert_is_der) {
        Ok(certs) => Ok((certs, key)),
        Err(e) => Err(e),
    }
}

/// A key file with a PKCS #8 key gives the first of those, whatever else it holds; one without
/// gives its first PKCS #1 key; one with neither gives none. A malformed part that has to be looked
/// at is reported as such.
pub proof fn law_first_key_is_chosen(pkcs8: Seq<Seq<u8>>, rsa: Option<Seq<Seq<u8>>>)
    ensures
        pkcs8.len() > 0 ==> chosen_key(Some(pkcs8), rsa) == Ok::<Seq<u8>, TlsError>(pkcs8[0]),
        pkcs8.len() == 0 && rsa is Some && rsa->0.len() > 0 ==> chosen_key(Some(pkcs8), rsa) == Ok::<
            Seq<u8>,
            TlsError,
        >(rsa->0[0]),
        pkcs8.len() == 0 && rsa is Some && rsa->0.len() == 0 ==> chosen_key(Some(pkcs8), rsa)
            == Err::<Seq<u8>, TlsError>(TlsError::NoPrivateKey),
        pkcs8.len() == 0 && rsa is None ==> chosen_key(Some(pkcs8), rsa) == Err::<
            Seq<u8>,
            TlsError,
        >(TlsError::MalformedPkcs1),
        chosen_key(None, rsa) == Err::<Seq<u8>, TlsError>(TlsError::MalformedPkcs8),
{
}

/// A file that holds a key or a certificate as it is gives exactly its own bytes.
pub proof fn law_der_files_are_taken_whole(file: Seq<u8>)
    ensures
        private_key_in(file, true) == Ok::<Seq<u8>, TlsError>(file),
        certificates_in(file, true) matches Ok(certs) && certs.len() == 1 && certs[0] == file,
{
}

/// A PEM file gives all certificates in it, in their order, or is refused as a whole; its key is
/// chosen among its own keys.
pub proof fn law_pem_files_are_taken_apart(file: Seq<u8>)
    ensures
        match pem_certs(file) {
            Some(certs) => certificates_in(file, false) == Ok::<Seq<Seq<u8>>, TlsError>(certs),
            None => certificates_in(file, false) == Err::<Seq<Seq<u8>>, TlsError>(
                TlsError::InvalidCertificate,
            ),
        },
        private_key_in(file, false) == chosen_key(pem_pkcs8_keys(file), pem_rsa_keys(file)),
{
}

/// The contents of a list are the bytes of each of its members, in order.
pub proof fn law_contents_are_those_of_the_members(list: Seq<Vec<u8>>, i: int)
    requires
        0 <= i < list.len(),
    ensures
        contents(list).len() == list.len(),
        contents(list)[i] == list[i]@,
{
}

} // verus!
