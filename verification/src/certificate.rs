use vstd::prelude::*;
use vstd::utf8::encode_utf8;

use crate::codec::{base64_encode, base64_encoded};

use rcgen::KeyUsagePurpose::{CrlSign, DigitalSignature, KeyCertSign};
use rcgen::{BasicConstraints, CertificateParams, DnType, IsCa, Issuer, KeyPair};

verus! {

broadcast use vstd::std_specs::vec::group_vec_axioms;

/// The configuration profile up to the certificate's base64 text.
pub open spec fn mobileconfig_head() -> Seq<char> {
    "<?xml version=\"1.0\" encoding=\"UTF-8\"?>
<!DOCTYPE plist PUBLIC \"-//Apple//DTD PLIST 1.0//EN\" \"http://www.apple.com/DTDs/PropertyList-1.0.dtd\">
<plist version=\"1.0\">
<dict>
    <key>PayloadContent</key>
    <array>
        <dict>
            <key>PayloadCertificateFileName</key>
            <string>SwagEx.cer</string>
            <key>PayloadContent</key>
            <data>"@
}

/// The configuration profile after the certificate's base64 text.
pub open spec fn mobileconfig_tail() -> Seq<char> {
    "</data>
            <key>PayloadDisplayName</key>
            <string>SwagEx</string>
            <key>PayloadIdentifier</key>
            <string>com.swagex.local-ca</string>
            <key>PayloadType</key>
            <string>com.apple.security.root</string>
            <key>PayloadUUID</key>
            <string>3C2A4D4E-6AEF-4F8D-8FCE-3F0A4C8CB9A1</string>
            <key>PayloadVersion</key>
            <integer>1</integer>
        </dict>
    </array>
    <key>PayloadDisplayName</key>
    <string>SwagEx</string>
    <key>PayloadIdentifier</key>
    <string>com.swagex.profile</string>
    <key>PayloadOrganization</key>
    <string>SwagEx</string>
    <key>PayloadRemovalDisallowed</key>
    <false/>
    <key>PayloadType</key>
    <string>Configuration</string>
    <key>PayloadUUID</key>
    <string>91D4BEF7-3DA9-4B3B-8E77-2BBA69E9CC26</string>
    <key>PayloadVersion</key>
    <integer>1</integer>
</dict>
</plist>
"@
}

/// The text of the iOS configuration profile that carries the public
/// certificate `der`, in base64, and nothing else.
pub open spec fn mobileconfig_text(der: Seq<u8>) -> Seq<char> {
    mobileconfig_head() + base64_encoded(der) + mobileconfig_tail()
}

/// UTF-8 encodes a concatenation piece by piece.
pub proof fn lemma_encode_utf8_concat(a: Seq<char>, b: Seq<char>)
    ensures
        encode_utf8(a + b) == encode_utf8(a) + encode_utf8(b),
    decreases a.len(),
{
    if a.len() == 0 {
        assert(a + b =~= b);
        assert(encode_utf8(a) =~= Seq::<u8>::empty());
        assert(encode_utf8(a) + encode_utf8(b) =~= encode_utf8(b));
    } else {
        lemma_encode_utf8_concat(a.drop_first(), b);
        assert((a + b).drop_first() =~= a.drop_first() + b);
        assert((a + b)[0] == a[0]);
    }
}

/// Appends the bytes of `tail` to `out`.
fn push_bytes(out: &mut Vec<u8>, tail: &[u8])
    ensures
        final(out)@ == old(out)@ + tail@,
{
    let mut i: usize = 0;
    while i < tail.len()
        invariant
            i <= tail@.len(),
            out@ == old(out)@ + tail@.subrange(0, i as int),
        decreases tail@.len() - i,
    {
        out.push(tail[i]);
        i += 1;
        assert(out@ =~= old(out)@ + tail@.subrange(0, i as int));
    }
    assert(tail@.subrange(0, tail@.len() as int) =~= tail@);
}

/// Builds an iOS configuration profile containing only the public SwagEx
/// certificate authority, as UTF-8 bytes.
///
/// A manually installed root certificate still needs explicit trust in iOS;
/// iOS controls the download and installation, with its own confirmations.
pub fn mobileconfig_profile(der: &[u8]) -> (r: Vec<u8>)
    ensures
        r@ == encode_utf8(mobileconfig_text(der@)),
{
    let encoded = base64_encode(der);
    let head: &str = "<?xml version=\"1.0\" encoding=\"UTF-8\"?>
<!DOCTYPE plist PUBLIC \"-//Apple//DTD PLIST 1.0//EN\" \"http://www.apple.com/DTDs/PropertyList-1.0.dtd\">
<plist version=\"1.0\">
<dict>
    <key>PayloadContent</key>
    <array>
        <dict>
            <key>PayloadCertificateFileName</key>
            <string>SwagEx.cer</string>
            <key>PayloadContent</key>
            <data>";
    let tail: &str = "</data>
            <key>PayloadDisplayName</key>
            <string>SwagEx</string>
            <key>PayloadIdentifier</key>
            <string>com.swagex.local-ca</string>
            <key>PayloadType</key>
            <string>com.apple.security.root</string>
            <key>PayloadUUID</key>
            <string>3C2A4D4E-6AEF-4F8D-8FCE-3F0A4C8CB9A1</string>
            <key>PayloadVersion</key>
            <integer>1</integer>
        </dict>
    </array>
    <key>PayloadDisplayName</key>
    <string>SwagEx</string>
    <key>PayloadIdentifier</key>
    <string>com.swagex.profile</string>
    <key>PayloadOrganization</key>
    <string>SwagEx</string>
    <key>PayloadRemovalDisallowed</key>
    <false/>
    <key>PayloadType</key>
    <string>Configuration</string>
    <key>PayloadUUID</key>
    <string>91D4BEF7-3DA9-4B3B-8E77-2BBA69E9CC26</string>
    <key>PayloadVersion</key>
    <integer>1</integer>
</dict>
</plist>
";
    let mut out: Vec<u8> = Vec::new();
    push_bytes(&mut out, head.as_bytes());
    push_bytes(&mut out, encoded.as_str().as_bytes());
    push_bytes(&mut out, tail.as_bytes());
    proof {
        lemma_encode_utf8_concat(mobileconfig_head(), base64_encoded(der@));
        lemma_encode_utf8_concat(mobileconfig_head() + base64_encoded(der@), mobileconfig_tail());
        assert(out@ =~= encode_utf8(mobileconfig_text(der@)));
    }
    out
}


/// The certificate authority that signs the certificates of intercepted hosts.
#[verifier::external_type_specification]
#[verifier::external_body]
#[verifier::reject_recursive_types(S)]
pub struct ExIssuer<'a, S>(Issuer<'a, S>);

/// A signing key of the certificate authority.
#[verifier::external_type_specification]
#[verifier::external_body]
pub struct ExKeyPair(KeyPair);

/// What a certificate authority's key may be used for.
#[derive(Debug, Clone, Copy, PartialEq, Eq)]
pub enum KeyUsage {
    DigitalSignature,
    KeyCertSign,
    CrlSign,
}

/// What a new self-signed certificate authority is made of: its subject's
/// common name and organisation, how many intermediate authorities may
/// follow it (`None`: no limit), and what its key may be used for.
pub struct AuthorityRequest {
    pub common_name: String,
    pub organization: String,
    pub max_path_length: Option<u8>,
    pub key_usages: Vec<KeyUsage>,
}

/// The SwagEx authority: common name and organisation `SwagEx`, no limit on
/// the intermediate authorities, for digital signature and for certificate
/// and CRL signing.
pub open spec fn is_swagex_request(request: AuthorityRequest) -> bool {
    &&& request.common_name@ == "SwagEx"@
    &&& request.organization@ == "SwagEx"@
    &&& request.max_path_length is None
    &&& request.key_usages@ == seq![KeyUsage::DigitalSignature, KeyUsage::KeyCertSign, KeyUsage::CrlSign]
}

/// The request for the SwagEx authority.
pub fn swagex_authority_request() -> (r: AuthorityRequest)
    ensures
        is_swagex_request(r),
{
    let mut key_usages: Vec<KeyUsage> = Vec::new();
    key_usages.push(KeyUsage::DigitalSignature);
    key_usages.push(KeyUsage::KeyCertSign);
    key_usages.push(KeyUsage::CrlSign);
    proof {
        assert(key_usages@ =~= seq![KeyUsage::DigitalSignature, KeyUsage::KeyCertSign, KeyUsage::CrlSign]);
    }
    AuthorityRequest {
        common_name: String::from_str("SwagEx"),
        organization: String::from_str("SwagEx"),
        max_path_length: None,
        key_usages,
    }
}

/// A newly made certificate authority: its certificate in PEM and in DER,
/// its private key (PKCS#8) in PEM and in DER, and the request it was made
/// from.
pub struct GeneratedAuthority {
    pub certificate_pem: String,
    pub certificate_der: Vec<u8>,
    pub private_key_pem: String,
    pub private_key_der: Vec<u8>,
    pub request: AuthorityRequest,
}

/// What `pem::encode_config` gives for a `Pem` with tag `label`, the bytes
/// `contents` and no headers, at the default line wrap of 64 characters,
/// with `\r\n` line endings where `crlf` holds and `\n` otherwise.
pub uninterp spec fn pem_encoded(label: Seq<char>, contents: Seq<u8>, crlf: bool) -> Seq<char>;

/// The texts that rcgen writes for a generated authority: the certificate is
/// the `CERTIFICATE` PEM of its DER, and the key is the `PRIVATE KEY` PEM of
/// its PKCS#8 DER, both with the one line ending that rcgen was built with
/// (`\r\n` on Windows, `\n` elsewhere).
pub open spec fn pem_matches_der(a: GeneratedAuthority) -> bool {
    exists|crlf: bool|
        #![trigger pem_encoded("CERTIFICATE"@, a.certificate_der@, crlf)]
        a.certificate_pem@ == pem_encoded("CERTIFICATE"@, a.certificate_der@, crlf)
            && a.private_key_pem@ == pem_encoded("PRIVATE KEY"@, a.private_key_der@, crlf)
}

/// The certificate authority that the proxy signs with, its public
/// certificate in DER, and whether it was created by this call.
pub struct CertificateMaterial {
    pub issuer: Issuer<'static, KeyPair>,
    pub der: Vec<u8>,
    pub was_created: bool,
}

/// Why the certificate authority could not be made ready.
#[derive(Debug, Clone, PartialEq, Eq)]
pub enum CertificateError {
    /// Some of its files exist and others do not, or its directory existed
    /// without them: no replacement is made behind the user's back.
    Incomplete,
    /// A new authority could not be generated; rcgen's error text.
    GenerationFailed(String),
    /// The stored certificate or key could not be read as an authority;
    /// rcgen's error text.
    Unreadable(String),
}

impl CertificateError {
    /// The message shown for this error: the refusal of an incomplete
    /// authority, or the text of rcgen's error.
    pub fn message(&self) -> (m: String)
        ensures
            m@ == match self {
                CertificateError::Incomplete => "Le certificat SwagEx est incomplet. Utilisez « Nouveau certificat… » uniquement pour le remplacer volontairement."@,
                CertificateError::GenerationFailed(text) => text@,
                CertificateError::Unreadable(text) => text@,
            },
    {
        match self {
            CertificateError::Incomplete => String::from_str("Le certificat SwagEx est incomplet. Utilisez « Nouveau certificat… » uniquement pour le remplacer volontairement."),
            CertificateError::GenerationFailed(text) => text.clone(),
            CertificateError::Unreadable(text) => text.clone(),
        }
    }
}

/// An error that rcgen reports.
#[verifier::external_type_specification]
#[verifier::external_body]
pub struct ExRcgenError(rcgen::Error);

/// `Display` of an rcgen error, the text that it reports. Nothing is claimed
/// of the text.
#[verifier::external_body]
fn rcgen_error_text(error: rcgen::Error) -> (r: String) {
    error.to_string()
}

/// What was found in the certificate directory before it was created if
/// missing: whether the directory existed, and which of the three files exist.
#[derive(Debug, Clone, Copy, PartialEq, Eq)]
pub struct CertificateFiles {
    pub directory_existed: bool,
    pub certificate_exists: bool,
    pub certificate_der_exists: bool,
    pub private_key_exists: bool,
}

pub open spec fn all_files_exist(f: CertificateFiles) -> bool {
    f.certificate_exists && f.certificate_der_exists && f.private_key_exists
}

pub open spec fn no_files_exist(f: CertificateFiles) -> bool {
    !f.certificate_exists && !f.certificate_der_exists && !f.private_key_exists
}

/// A first launch creates the directory and all three files. Once an
/// authority exists, a silent replacement would break the trust already
/// installed on the Apple device, so anything short of all three files in an
/// existing directory is refused.
pub open spec fn refuses_files(f: CertificateFiles) -> bool {
    !all_files_exist(f) && (f.directory_existed || !no_files_exist(f))
}

/// Decides what to do with the files found: `Ok(true)` to create a new
/// authority, `Ok(false)` to use the stored one, or the refusal.
pub fn certificate_files_verdict(files: CertificateFiles) -> (r: Result<bool, CertificateError>)
    ensures
        r is Err <==> refuses_files(files),
        r is Err ==> r == Err::<bool, CertificateError>(CertificateError::Incomplete),
        r matches Ok(created) ==> created == !all_files_exist(files),
{
    let all_exist = files.certificate_exists && files.certificate_der_exists && files.private_key_exists;
    let none_exist = !files.certificate_exists && !files.certificate_der_exists && !files.private_key_exists;
    if !all_exist && (files.directory_existed || !none_exist) {
        return Err(CertificateError::Incomplete);
    }
    Ok(!all_exist)
}

/// `rcgen`: default parameters (`CertificateParams::default`) with the
/// request's common name and organisation as subject, `IsCa::Ca` with the
/// request's limit and the request's key usages, converted one for one; a
/// new key pair (`KeyPair::generate`); and the self-signed certificate
/// (`CertificateParams::self_signed`), or the error it reports. The contract
/// claims that the result carries the request it was made from, and that
/// its PEM texts encode its DER bytes (`Certificate::pem` encodes
/// `Certificate::der`, `KeyPair::serialize_pem` encodes the key's serialized
/// DER). The key is random: nothing is claimed of the DER bytes themselves.
/// `KeyPair::generate` unwraps the parse of the key it has just generated,
/// and that parse draws from the system's random source again: should that
/// draw fail, right after one that succeeded, the call panics. No argument
/// can rule this out, and it is left unsaid.
#[verifier::external_body]
fn self_signed_authority(request: AuthorityRequest) -> (r: Result<GeneratedAuthority, rcgen::Error>)
    ensures
        r matches Ok(a) ==> a.request == request && exists|crlf: bool|
            #![trigger pem_encoded("CERTIFICATE"@, a.certificate_der@, crlf)]
            a.certificate_pem@ == pem_encoded("CERTIFICATE"@, a.certificate_der@, crlf)
                && a.private_key_pem@ == pem_encoded("PRIVATE KEY"@, a.private_key_der@, crlf),
{
    let mut params = CertificateParams::default();
    params.distinguished_name.push(DnType::CommonName, request.common_name.as_str());
    params.distinguished_name.push(DnType::OrganizationName, request.organization.as_str());
    params.is_ca = IsCa::Ca(request.max_path_length.map_or(BasicConstraints::Unconstrained, BasicConstraints::Constrained));
    params.key_usages = request.key_usages.iter().map(|u| match u {
        KeyUsage::DigitalSignature => DigitalSignature,
        KeyUsage::KeyCertSign => KeyCertSign,
        KeyUsage::CrlSign => CrlSign,
    }).collect();
    let key_pair = KeyPair::generate()?;
    let certificate = params.self_signed(&key_pair)?;
    let private_key_der = key_pair.serialized_der().to_vec();
    Ok(GeneratedAuthority { certificate_pem: certificate.pem(), certificate_der: certificate.der().to_vec(), private_key_pem: key_pair.serialize_pem(), private_key_der, request })
}

/// Decides on the files found and, where a first launch needs one, generates
/// the authority to be written: `Ok(None)` where the stored one is complete.
pub fn prepare_certificate(files: CertificateFiles) -> (r: Result<Option<GeneratedAuthority>, CertificateError>)
    ensures
        r matches Err(CertificateError::Incomplete) <==> refuses_files(files),
        r matches Ok(None) <==> all_files_exist(files),
        r is Err ==> !(r->Err_0 is Unreadable),
        (r matches Ok(Some(_)) || r matches Err(CertificateError::GenerationFailed(_)))
            <==> (!refuses_files(files) && !all_files_exist(files)),
        r matches Ok(Some(a)) ==> is_swagex_request(a.request) && pem_matches_der(a),
{
    match certificate_files_verdict(files) {
        Err(e) => Err(e),
        Ok(false) => Ok(None),
        Ok(true) => match self_signed_authority(swagex_authority_request()) {
            Ok(authority) => Ok(Some(authority)),
            Err(error) => Err(CertificateError::GenerationFailed(rcgen_error_text(error))),
        },
    }
}

/// Whether `pem` is text that `rcgen::KeyPair::from_pem` can read: a PEM
/// block (`pem::parse`) whose contents are a PKCS#8 private key of an
/// algorithm that rcgen supports. Whether the call then succeeds also rests
/// on the system's random source, which the parse of an ECDSA key draws from.
pub uninterp spec fn rcgen_key_pem_accepted(pem: Seq<char>) -> bool;

/// Whether `rcgen::Issuer::from_ca_cert_pem` accepts `pem` as a CA
/// certificate; its source reads only the certificate to decide.
pub uninterp spec fn rcgen_ca_pem_accepted(pem: Seq<char>) -> bool;

/// `rcgen::KeyPair::from_pem`: the private key parsed from PEM, or the
/// error it reports. The contract claims only that it succeeds on texts it
/// can read, named: ring draws random bytes while it parses an ECDSA key and
/// reports a failed draw as a rejected key, so a readable text may still be
/// refused, and when is left unsaid. Nothing is claimed of the key.
#[verifier::external_body]
fn key_pair_from_pem(private_key_pem: &str) -> (r: Result<KeyPair, rcgen::Error>)
    ensures
        r is Ok ==> rcgen_key_pem_accepted(private_key_pem@),
{
    KeyPair::from_pem(private_key_pem)
}

/// `rcgen::Issuer::from_ca_cert_pem`: the authority parsed from its PEM
/// certificate and signing with `key_pair`, or the error it reports. The
/// contract claims that it succeeds exactly on the certificate texts it
/// accepts, named; its source parses the certificate alone and never
/// fails on the key. Nothing is claimed of the authority.
#[verifier::external_body]
fn issuer_from_ca_cert_pem(certificate_pem: &str, key_pair: KeyPair) -> (r: Result<Issuer<'static, KeyPair>, rcgen::Error>)
    ensures
        r is Ok <==> rcgen_ca_pem_accepted(certificate_pem@),
{
    Issuer::from_ca_cert_pem(certificate_pem, key_pair)
}

/// The material of the authority read back from its files. It succeeds
/// only where both texts can be read; a refusal carries rcgen's error text.
pub fn certificate_material(
    certificate_pem: &str,
    private_key_pem: &str,
    der: Vec<u8>,
    was_created: bool,
) -> (r: Result<CertificateMaterial, CertificateError>)
    ensures
        r is Ok ==> rcgen_key_pem_accepted(private_key_pem@) && rcgen_ca_pem_accepted(certificate_pem@),
        r matches Ok(m) ==> m.der@ == der@ && m.was_created == was_created,
        r is Err ==> r->Err_0 is Unreadable,
{
    let key_pair = match key_pair_from_pem(private_key_pem) {
        Ok(k) => k,
        Err(error) => return Err(CertificateError::Unreadable(rcgen_error_text(error))),
    };
    match issuer_from_ca_cert_pem(certificate_pem, key_pair) {
        Ok(issuer) => Ok(CertificateMaterial { issuer, der, was_created }),
        Err(error) => Err(CertificateError::Unreadable(rcgen_error_text(error))),
    }
}

/// Whether a certificate store holds a certificate whose DER encoding is `der`.
pub open spec fn store_holds(store: Seq<Vec<u8>>, der: Seq<u8>) -> bool {
    exists|i: int| 0 <= i < store.len() && (#[trigger] store[i])@ == der
}

/// Looks for `der` among the encoded certificates of a root store.
pub fn certificate_is_in_root_store(der: &[u8], store: &Vec<Vec<u8>>) -> (r: bool)
    ensures
        r == store_holds(store@, der@),
        r <==> exists|i: int| 0 <= i < store@.len() && (#[trigger] store@[i])@ == der@,
{
    let mut i: usize = 0;
    while i < store.len()
        invariant
            i <= store.len(),
            forall|j: int| 0 <= j < i ==> (#[trigger] store@[j])@ != der@,
        decreases store.len() - i,
    {
        if bytes_equal(store[i].as_slice(), der) {
            return true;
        }
        i += 1;
    }
    false
}

fn bytes_equal(a: &[u8], b: &[u8]) -> (r: bool)
    ensures
        r == (a@ == b@),
{
    if a.len() != b.len() {
        return false;
    }
    let mut i: usize = 0;
    while i < a.len()
        invariant
            i <= a@.len(),
            a@.len() == b@.len(),
            forall|j: int| 0 <= j < i ==> a@[j] == b@[j],
        decreases a@.len() - i,
    {
        if a[i] != b[i] {
            return false;
        }
        i += 1;
    }
    assert(a@ =~= b@);
    true
}

/// The certificate is trusted when the root store of the current user or of
/// the machine holds it. Only Windows has such stores here; elsewhere both
/// are empty and the answer is no.
pub fn is_certificate_trusted(der: &[u8], current_user_roots: &Vec<Vec<u8>>, local_machine_roots: &Vec<Vec<u8>>) -> (r: bool)
    ensures
        r == (store_holds(current_user_roots@, der@) || store_holds(local_machine_roots@, der@)),
        r <==> (exists|i: int| 0 <= i < current_user_roots@.len() && (#[trigger] current_user_roots@[i])@ == der@)
            || (exists|i: int| 0 <= i < local_machine_roots@.len() && (#[trigger] local_machine_roots@[i])@ == der@),
{
    certificate_is_in_root_store(der, current_user_roots) || certificate_is_in_root_store(der, local_machine_roots)
}

/// The trust check answers yes as soon as either root store holds, at any
/// position, a certificate with exactly the DER bytes given, and no when
/// neither store holds one.
pub proof fn lemma_trust_found_at_any_position(
    current_user_roots: Seq<Vec<u8>>,
    local_machine_roots: Seq<Vec<u8>>,
    der: Seq<u8>,
)
    ensures
        forall|i: int| 0 <= i < current_user_roots.len() && (#[trigger] current_user_roots[i])@ == der
            ==> store_holds(current_user_roots, der),
        forall|i: int| 0 <= i < local_machine_roots.len() && (#[trigger] local_machine_roots[i])@ == der
            ==> store_holds(local_machine_roots, der),
        (forall|i: int| 0 <= i < current_user_roots.len() ==> (#[trigger] current_user_roots[i])@ != der)
            ==> !store_holds(current_user_roots, der),
        (forall|i: int| 0 <= i < local_machine_roots.len() ==> (#[trigger] local_machine_roots[i])@ != der)
            ==> !store_holds(local_machine_roots, der),
{
}

/// The profile's certificate payload, the dictionary whose `PayloadType` is
/// `com.apple.security.root`, maps `PayloadContent` to `<data>` holding the
/// Base64 text of the certificate's DER bytes, which is where iOS reads the
/// root certificate to install.
pub proof fn lemma_profile_root_payload_holds_certificate(der: Seq<u8>)
    ensures
        exists|pre: Seq<char>, post: Seq<char>|
            mobileconfig_text(der) == pre + "<key>PayloadContent</key>\n            <data>"@ + base64_encoded(der) + "</data>\n            <key>PayloadDisplayName</key>\n            <string>SwagEx</string>\n            <key>PayloadIdentifier</key>\n            <string>com.swagex.local-ca</string>\n            <key>PayloadType</key>\n            <string>com.apple.security.root</string>"@ + post,
{
    reveal_strlit("<?xml version=\"1.0\" encoding=\"UTF-8\"?>
<!DOCTYPE plist PUBLIC \"-//Apple//DTD PLIST 1.0//EN\" \"http://www.apple.com/DTDs/PropertyList-1.0.dtd\">
<plist version=\"1.0\">
<dict>
    <key>PayloadContent</key>
    <array>
        <dict>
            <key>PayloadCertificateFileName</key>
            <string>SwagEx.cer</string>
            <key>PayloadContent</key>
            <data>");
    reveal_strlit("</data>
            <key>PayloadDisplayName</key>
            <string>SwagEx</string>
            <key>PayloadIdentifier</key>
            <string>com.swagex.local-ca</string>
            <key>PayloadType</key>
            <string>com.apple.security.root</string>
            <key>PayloadUUID</key>
            <string>3C2A4D4E-6AEF-4F8D-8FCE-3F0A4C8CB9A1</string>
            <key>PayloadVersion</key>
            <integer>1</integer>
        </dict>
    </array>
    <key>PayloadDisplayName</key>
    <string>SwagEx</string>
    <key>PayloadIdentifier</key>
    <string>com.swagex.profile</string>
    <key>PayloadOrganization</key>
    <string>SwagEx</string>
    <key>PayloadRemovalDisallowed</key>
    <false/>
    <key>PayloadType</key>
    <string>Configuration</string>
    <key>PayloadUUID</key>
    <string>91D4BEF7-3DA9-4B3B-8E77-2BBA69E9CC26</string>
    <key>PayloadVersion</key>
    <integer>1</integer>
</dict>
</plist>
");
    reveal_strlit("<key>PayloadContent</key>\n            <data>");
    reveal_strlit("</data>\n            <key>PayloadDisplayName</key>\n            <string>SwagEx</string>\n            <key>PayloadIdentifier</key>\n            <string>com.swagex.local-ca</string>\n            <key>PayloadType</key>\n            <string>com.apple.security.root</string>");
    let head = mobileconfig_head();
    let tail = mobileconfig_tail();
    let k = "<key>PayloadContent</key>\n            <data>"@;
    let m = "</data>\n            <key>PayloadDisplayName</key>\n            <string>SwagEx</string>\n            <key>PayloadIdentifier</key>\n            <string>com.swagex.local-ca</string>\n            <key>PayloadType</key>\n            <string>com.apple.security.root</string>"@;
    let pre = head.subrange(0, head.len() - k.len());
    let post = tail.subrange(m.len() as int, tail.len() as int);
    assert(pre + k =~= head);
    assert(m + post =~= tail);
    let b = base64_encoded(der);
    assert(mobileconfig_text(der) =~= pre + k + b + m + post);
}

} // verus!
