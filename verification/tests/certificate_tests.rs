use base64::engine::general_purpose::STANDARD;
use base64::Engine;
use swagex::certificate::{
    certificate_files_verdict, certificate_is_in_root_store, is_certificate_trusted,
    mobileconfig_profile, prepare_certificate, CertificateError, CertificateFiles, KeyUsage,
};
use swagex::paths::{certificate_der_path, certificate_directory};

#[test]
fn builds_a_mobileconfig_with_only_the_public_certificate() {
    let der = [0x30, 0x03, 0x02, 0x01, 0x00];
    let profile = String::from_utf8(mobileconfig_profile(&der)).unwrap();

    assert!(profile.contains("com.apple.security.root"));
    assert!(profile.contains("SwagEx"));
    assert!(!profile.contains("SwagEx Local CA"));
    assert!(profile.contains(&STANDARD.encode(der)));
    assert!(!profile.contains("PRIVATE KEY"));
}

#[test]
fn the_mobileconfig_carries_the_certificate_in_its_data_member() {
    let profile = String::from_utf8(mobileconfig_profile(&[1, 2, 3])).unwrap();
    assert!(profile.starts_with("<?xml version=\"1.0\" encoding=\"UTF-8\"?>\n"));
    assert!(profile.contains("<data>AQID</data>"));
    assert!(profile.ends_with("</plist>\n"));
}

fn files(directory_existed: bool, pem: bool, der: bool, key: bool) -> CertificateFiles {
    CertificateFiles {
        directory_existed,
        certificate_exists: pem,
        certificate_der_exists: der,
        private_key_exists: key,
    }
}

#[test]
fn creates_an_authority_only_on_a_first_launch() {
    assert_eq!(certificate_files_verdict(files(false, false, false, false)), Ok(true));
    assert_eq!(certificate_files_verdict(files(true, true, true, true)), Ok(false));
    assert_eq!(certificate_files_verdict(files(false, true, true, true)), Ok(false));
}

#[test]
fn refuses_to_rotate_an_incomplete_authority() {
    assert_eq!(
        certificate_files_verdict(files(true, true, true, false)),
        Err(CertificateError::Incomplete)
    );
    assert_eq!(
        certificate_files_verdict(files(true, false, false, false)),
        Err(CertificateError::Incomplete)
    );
    assert_eq!(
        certificate_files_verdict(files(false, false, true, false)),
        Err(CertificateError::Incomplete)
    );
    assert!(CertificateError::Incomplete.message().contains("certificat SwagEx est incomplet"));
}

#[test]
fn prepares_a_new_authority_on_a_first_launch() {
    let created = prepare_certificate(files(false, false, false, false)).unwrap().unwrap();
    assert!(created.certificate_pem.contains("BEGIN CERTIFICATE"));
    assert!(created.private_key_pem.contains("PRIVATE KEY"));
    assert!(!created.certificate_der.is_empty());
    assert_eq!(created.request.common_name, "SwagEx");
    assert_eq!(created.request.organization, "SwagEx");
    assert_eq!(created.request.max_path_length, None);
    assert_eq!(
        created.request.key_usages,
        vec![KeyUsage::DigitalSignature, KeyUsage::KeyCertSign, KeyUsage::CrlSign]
    );
    assert!(prepare_certificate(files(true, true, true, true)).unwrap().is_none());
    assert!(matches!(
        prepare_certificate(files(true, false, true, true)),
        Err(CertificateError::Incomplete)
    ));
}

fn pem_body(text: &str, label: &str) -> Vec<u8> {
    let begin = format!("-----BEGIN {}-----", label);
    let end = format!("-----END {}-----", label);
    let trimmed = text.trim_end();
    assert!(trimmed.starts_with(&begin));
    assert!(trimmed.ends_with(&end));
    let body: String = trimmed[begin.len()..trimmed.len() - end.len()]
        .chars()
        .filter(|c| !c.is_whitespace())
        .collect();
    STANDARD.decode(body).unwrap()
}

#[test]
fn the_pem_texts_of_a_new_authority_encode_its_der() {
    let created = prepare_certificate(files(false, false, false, false)).unwrap().unwrap();
    assert_eq!(pem_body(&created.certificate_pem, "CERTIFICATE"), created.certificate_der);
    assert_eq!(pem_body(&created.private_key_pem, "PRIVATE KEY"), created.private_key_der);
    assert!(!created.private_key_der.is_empty());
    let line_ending = if created.certificate_pem.ends_with("\r\n") { "\r\n" } else { "\n" };
    assert!(created.certificate_pem.ends_with(&format!("-----END CERTIFICATE-----{}", line_ending)));
    assert!(created.private_key_pem.ends_with(&format!("-----END PRIVATE KEY-----{}", line_ending)));
}

#[test]
fn loads_the_material_of_a_generated_authority() {
    let created = prepare_certificate(files(false, false, false, false)).unwrap().unwrap();
    let material = swagex::certificate::certificate_material(
        &created.certificate_pem,
        &created.private_key_pem,
        created.certificate_der.clone(),
        true,
    )
    .unwrap();
    assert_eq!(material.der, created.certificate_der);
    assert!(material.was_created);
    assert!(matches!(
        swagex::certificate::certificate_material("not pem", "not pem", vec![], false),
        Err(CertificateError::Unreadable(_))
    ));
    assert!(matches!(
        swagex::certificate::certificate_material("not pem", &created.private_key_pem, vec![], false),
        Err(CertificateError::Unreadable(_))
    ));
    assert!(matches!(
        swagex::certificate::certificate_material(&created.certificate_pem, "not pem", vec![], false),
        Err(CertificateError::Unreadable(_))
    ));
}

#[test]
fn trusts_a_certificate_found_in_either_root_store() {
    let der = vec![1u8, 2, 3];
    let other = vec![1u8, 2];
    assert!(certificate_is_in_root_store(&der, &vec![other.clone(), der.clone()]));
    assert!(!certificate_is_in_root_store(&der, &vec![other.clone()]));
    assert!(is_certificate_trusted(&der, &vec![], &vec![der.clone()]));
    assert!(is_certificate_trusted(&der, &vec![der.clone()], &vec![]));
    assert!(!is_certificate_trusted(&der, &vec![other.clone()], &vec![vec![1, 2, 3, 4]]));
}

#[test]
fn names_the_certificate_files() {
    assert_eq!(
        std::path::Path::new(&certificate_der_path("/data/certificate")),
        std::path::Path::new("/data/certificate").join("SwagEx-CA.cer")
    );
    assert_eq!(
        std::path::Path::new(&certificate_directory("/data")),
        std::path::Path::new("/data").join("certificate")
    );
}
