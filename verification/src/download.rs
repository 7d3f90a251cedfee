//! The update planner's checksum verification and cache layout: an
//! already-downloaded archive is kept exactly when its digest equals the
//! catalog's declared checksum; otherwise it is fetched again. A checksum
//! field that does not decode to a sixteen-byte digest is an error for
//! that item alone.

use vstd::prelude::*;
use vstd::string::StringSliceAdditionalSpecFns;
use vstd::string::StringExecFns;
use md5::Digest;

verus! {

pub open spec fn is_hex_digit_byte(b: u8) -> bool {
    (48 <= b && b <= 57) || (97 <= b && b <= 102) || (65 <= b && b <= 70)
}

/// The numeric value of one hexadecimal digit byte.
pub open spec fn hex_val(b: u8) -> int {
    if 48 <= b && b <= 57 {
        b - 48
    } else if 97 <= b && b <= 102 {
        b - 87
    } else {
        b - 55
    }
}

/// A byte string that decodes as hexadecimal: even length, digits only.
pub open spec fn hex_wellformed(s: Seq<u8>) -> bool {
    s.len() % 2 == 0 && (forall|i: int| 0 <= i < s.len() ==> is_hex_digit_byte(#[trigger] s[i]))
}

/// The bytes a well-formed hexadecimal string denotes, two digits each.
pub open spec fn hex_decoded(s: Seq<u8>) -> Seq<u8> {
    Seq::new(s.len() / 2, |i: int| (hex_val(s[2 * i]) * 16 + hex_val(s[2 * i + 1])) as u8)
}

enum HexError {
    OddLength,
    InvalidCharacter,
}

/// Relies on `hex::decode`: two hexadecimal digits become one byte; a
/// string of odd length is refused before its characters are examined,
/// and any non-digit character is refused.
#[verifier::external_body]
fn hex_decode(data: &[u8]) -> (r: Result<Vec<u8>, HexError>)
    ensures
        r is Ok <==> hex_wellformed(data@),
        r matches Ok(v) ==> v@ == hex_decoded(data@),
        (r matches Err(e) && e is OddLength) <==> data@.len() % 2 != 0,
{
    match hex::decode(data) {
        Ok(v) => Ok(v),
        Err(hex::FromHexError::OddLength) => Err(HexError::OddLength),
        Err(hex::FromHexError::InvalidHexCharacter { .. }) => Err(HexError::InvalidCharacter),
        Err(hex::FromHexError::InvalidStringLength) => Err(HexError::InvalidCharacter),
    }
}

/// The digest of a byte string; a function of the bytes alone.
pub uninterp spec fn md5_of(data: Seq<u8>) -> Seq<u8>;

/// Relies on `md5::Md5` through the `Digest` trait: the digest depends on
/// the input bytes alone and is sixteen bytes long.
#[verifier::external_body]
fn md5_digest(data: &[u8]) -> (r: Vec<u8>)
    ensures
        r@ == md5_of(data@),
        r@.len() == 16,
{
    md5::Md5::digest(data).to_vec()
}

fn bytes_equal(a: &Vec<u8>, b: &Vec<u8>) -> (r: bool)
    ensures
        r == (a@ == b@),
{
    if a.len() != b.len() {
        return false;
    }
    let mut i: usize = 0;
    while i < a.len()
        invariant
            i <= a.len(),
            a@.len() == b@.len(),
            forall|j: int| 0 <= j < i ==> a@[j] == b@[j],
        decreases a.len() - i,
    {
        if a[i] != b[i] {
            return false;
        }
        i = i + 1;
    }
    proof {
        assert(a@ =~= b@);
    }
    true
}

/// The error a checksum verification raises: the catalog's declared
/// checksum does not decode to a sixteen-byte digest.
#[derive(Debug, PartialEq, Eq, Structural, Clone, Copy)]
pub enum ChecksumError {
    MalformedDigest,
}

/// A declared checksum in the shape verification accepts: thirty-two
/// hexadecimal digits.
pub open spec fn checksum_wellformed(s: Seq<u8>) -> bool {
    hex_wellformed(s) && s.len() == 32
}

/// Decides whether an item's archive must be fetched. `existing` holds
/// the cached file's contents where one is present; with no cached file
/// the fetch is always needed. A cached file is kept (no fetch) exactly
/// when its digest equals the declared checksum; a malformed checksum is
/// an error for this item.
pub fn needs_download(existing: Option<&Vec<u8>>, checksum: &str) -> (r: Result<
    bool,
    ChecksumError,
>)
    ensures
        existing is None ==> r == Ok::<bool, ChecksumError>(true),
        existing matches Some(c) ==> (if checksum_wellformed(checksum.spec_bytes()) {
            r == Ok::<bool, ChecksumError>(md5_of(c@) != hex_decoded(checksum.spec_bytes()))
        } else {
            r == Err::<bool, ChecksumError>(ChecksumError::MalformedDigest)
        }),
{
    match existing {
        None => Ok(true),
        Some(contents) => {
            let decoded = hex_decode(checksum.as_bytes());
            match decoded {
                Err(_) => Err(ChecksumError::MalformedDigest),
                Ok(d) => {
                    if d.len() != 16 {
                        proof {
                            assert(checksum.spec_bytes().len() != 32);
                        }
                        Err(ChecksumError::MalformedDigest)
                    } else {
                        let digest = md5_digest(contents.as_slice());
                        Ok(!bytes_equal(&digest, &d))
                    }
                },
            }
        },
    }
}

/// The cache location of one item's archive:
/// `<downloadDir>/<local directory name>/<declared file name>`.
pub fn download_cache_path(download_dir: &str, name: &str, file_name: &str) -> (r: String)
    ensures
        r@ == download_dir@ + "/"@ + name@ + "/"@ + file_name@,
{
    let mut out = download_dir.to_owned();
    out.append("/");
    out.append(name);
    out.append("/");
    out.append(file_name);
    proof {
        assert(out@ =~= download_dir@ + "/"@ + name@ + "/"@ + file_name@);
    }
    out
}

} // verus!
