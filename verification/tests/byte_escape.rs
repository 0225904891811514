use evidentrail_bench::digest::ArtifactDigest;
use evidentrail_bench::fidelity::{
    ascii_byte_escape_v1_identity, derive_reversible_encoded_representation_artifact_digest_v1,
    derive_source_exact_representation_artifact_digest_v1, verify_ascii_byte_escape_v1,
    RepresentationFidelityErrorV1, ReversibleEncodingIdentityV1, ASCII_BYTE_ESCAPE_V1_MANIFEST,
    REVERSIBLE_ENCODED_REPRESENTATION_DOMAIN_V1, SOURCE_EXACT_REPRESENTATION_DOMAIN_V1,
};
use sha2::Digest;

fn framed(out: &mut Vec<u8>, bytes: &[u8]) {
    out.extend_from_slice(&(bytes.len() as u64).to_le_bytes());
    out.extend_from_slice(bytes);
}

#[test]
fn canonical_escape_is_accepted_and_decodes_exactly() {
    assert_eq!(verify_ascii_byte_escape_v1(b"a\\x00\\n\\\\ z\\t\\r\\xff", b"a\x00\n\\ z\t\r\xff"), Ok(()));
    assert_eq!(verify_ascii_byte_escape_v1(b"", b""), Ok(()));
}

#[test]
fn non_canonical_or_broken_escapes_are_malformed() {
    let malformed = Err(RepresentationFidelityErrorV1::MalformedReversibleEncoding);
    assert_eq!(verify_ascii_byte_escape_v1(b"\\x41", b"A"), malformed);
    assert_eq!(verify_ascii_byte_escape_v1(b"\\x0A", b"\n"), malformed);
    assert_eq!(verify_ascii_byte_escape_v1(b"\\x0a", b"\n"), malformed);
    assert_eq!(verify_ascii_byte_escape_v1(b"\\x0", b"\x00"), malformed);
    assert_eq!(verify_ascii_byte_escape_v1(b"\\", b"\\"), malformed);
    assert_eq!(verify_ascii_byte_escape_v1(b"\\q", b"q"), malformed);
    assert_eq!(verify_ascii_byte_escape_v1(b"a\nb", b"a\nb"), malformed);
}

#[test]
fn decoded_bytes_must_equal_the_source() {
    let mismatch = Err(RepresentationFidelityErrorV1::ReversibleDecodedBytesMismatch);
    assert_eq!(verify_ascii_byte_escape_v1(b"abc", b"abd"), mismatch);
    assert_eq!(verify_ascii_byte_escape_v1(b"abc", b"ab"), mismatch);
    assert_eq!(verify_ascii_byte_escape_v1(b"ab", b"abc"), mismatch);
}

#[test]
fn escape_identity_is_the_manifest_digest() {
    let identity = ascii_byte_escape_v1_identity();
    let expected: [u8; 32] = sha2::Sha256::digest(ASCII_BYTE_ESCAPE_V1_MANIFEST.as_bytes()).into();
    assert_eq!(identity.artifact_digest.0, expected);
    assert_eq!(identity.contract_version, 1);
    assert_eq!(identity.code(), "ascii_byte_escape_v1");
    assert!(ReversibleEncodingIdentityV1::try_new(ArtifactDigest(expected), 1).is_ok());
    assert_eq!(
        ReversibleEncodingIdentityV1::try_new(ArtifactDigest(expected), 2).unwrap_err(),
        RepresentationFidelityErrorV1::UnknownReversibleEncoding
    );
    assert_eq!(
        ReversibleEncodingIdentityV1::try_new(ArtifactDigest([0; 32]), 1).unwrap_err(),
        RepresentationFidelityErrorV1::UnknownReversibleEncoding
    );
}

#[test]
fn representation_digests_frame_their_material() {
    let source = derive_source_exact_representation_artifact_digest_v1(b"db timeout").unwrap();
    let mut message = Vec::new();
    framed(&mut message, SOURCE_EXACT_REPRESENTATION_DOMAIN_V1.as_bytes());
    framed(&mut message, b"db timeout");
    let expected: [u8; 32] = sha2::Sha256::digest(&message).into();
    assert_eq!(source.0, expected);

    let identity = ascii_byte_escape_v1_identity();
    let encoded = derive_reversible_encoded_representation_artifact_digest_v1(identity, b"a\\n").unwrap();
    let mut message = Vec::new();
    framed(&mut message, REVERSIBLE_ENCODED_REPRESENTATION_DOMAIN_V1.as_bytes());
    framed(&mut message, &identity.artifact_digest.0);
    framed(&mut message, &1u64.to_le_bytes());
    framed(&mut message, b"a\\n");
    let expected: [u8; 32] = sha2::Sha256::digest(&message).into();
    assert_eq!(encoded.0, expected);

    let unknown = ReversibleEncodingIdentityV1 { artifact_digest: ArtifactDigest([1; 32]), contract_version: 1 };
    assert_eq!(
        derive_reversible_encoded_representation_artifact_digest_v1(unknown, b"a").unwrap_err(),
        RepresentationFidelityErrorV1::UnknownReversibleEncoding
    );
}
