use devtools::cert::{AlgorithmIdentifier, SubjectPublicKeyInfo};
use devtools::error::{DecodeError, Found, PemFault};
use devtools::hex::{format_number_to_hex_with_colon, print_hex_dump};
use devtools::oid::{format_oid, oid_to_text};
use devtools::pubkey::print_x509_ski;
use devtools::report::{parse_and_report, print_version, x509_parse};

const RSA_PEM: &str = "-----BEGIN CERTIFICATE-----\nMIIDVDCCAjygAwIBAgIIASNFZ4mrze8wDQYJKoZIhvcNAQELBQAwOTELMAkGA1UE\nBhMCVVMxFDASBgNVBAoMC0V4YW1wbGUgT3JnMRQwEgYDVQQDDAtleGFtcGxlLmNv\nbTAeFw0yNDAxMDEwMDAwMDBaFw0zNDAxMDEwMDAwMDBaMDkxCzAJBgNVBAYTAlVT\nMRQwEgYDVQQKDAtFeGFtcGxlIE9yZzEUMBIGA1UEAwwLZXhhbXBsZS5jb20wggEi\nMA0GCSqGSIb3DQEBAQUAA4IBDwAwggEKAoIBAQCzV/h/FHRKpQep98XAAC57O76B\nCDUAgyWdZMbaXJSClsSmylt04Y/GIf6cJl0ppiVZWCi+kv/uw6oklQP7LoyiXkU5\nUEj4z4dIQb4jwQoRu8HH8QSZAvZGigYREGcO3sfxTUrLcTYHG2+s7tRUzXUW34+x\nrveXobGnIus72je0aqZ6+QZS5Xc1pLUhNGrkqvt/wRULsFqP2k1BEhST44e1hJ7U\nXEm9Okj/F26/3s5lxmhCIv+guIYg2FYWwh6S9+r19AdNv5MKw+xl8Pm++ts+rgpY\nBj+1wOqLqm9ilrxR3SrzsVpEGSDpTeWYH5/KSokU3+5uYoIWPKUY/r2zfaMDAgMB\nAAGjYDBeMBwGA1UdEQQVMBOCC2V4YW1wbGUuY29thwR/AAABMA8GA1UdEwEB/wQF\nMAMBAf8wDgYDVR0PAQH/BAQDAgKkMB0GA1UdDgQWBBQLgPjKQ6zKhA16t0nibQAd\n3+VH7zANBgkqhkiG9w0BAQsFAAOCAQEABQ2MS4NQzYta8jyY/OJ6wlIQtKpkJRlK\nbb+02CKLxP3NbYjBxK3PvK4v/i0xOOy/24umbMkGvwzo38HMg9to6L9aQW43Yn9A\nrOHmmcgfb6bUu4U1J0l6M+klFGQKVOwAZl7p49eiY4WHhvobb+XwhJdQa/RyFIEO\nIB85kJMP0aKmoELrziyGdPtjlDWEU+ab9HFbbKvXzvy2NoRvDfvNSMmkUZf1AjJp\npOdNYUl4OKSOaZmt+cyFY4PrrhHebo2lsRzPR7DGyfZDFatS/wUlD23JbREEk6Xs\nrjYvXjXEXdIr3lwMEgnvSTLfCuAvEsTelaFUdQkRTAHihhSrBl8U0Q==\n-----END CERTIFICATE-----\n";

const EC_PEM: &str = "-----BEGIN CERTIFICATE-----\nMIIBEDCBt6ADAgECAgEHMAoGCCqGSM49BAMCMBIxEDAOBgNVBAMMB2VjLnRlc3Qw\nHhcNMjAwNTA2MDcwODA5WhcNMjEwNTA2MDcwODA5WjASMRAwDgYDVQQDDAdlYy50\nZXN0MFkwEwYHKoZIzj0CAQYIKoZIzj0DAQcDQgAEHcl6G/NDb2XdhRfhhyLYxX7F\nxgG1wm6CqBqZt0wAyrsrA4X7uNAK8VGKTzk5/xs7mQ2tq1QJ+X4QdPYewQWDxzAK\nBggqhkjOPQQDAgNIADBFAiB8g0G1V1QdtHIWE1Wjlp1bW5+83PsWMcS86xvZukbF\nIQIhAOg3PahGal1WOEJo4NaLe5EAoVp7jm2E1G0VA0EN//+R\n-----END CERTIFICATE-----\n";

/// 2025-01-01T00:00:00Z
const NOW: i64 = 1735689600;

fn position(hay: &str, needle: &str, from: usize) -> usize {
    match hay[from..].find(needle) {
        Some(i) => from + i,
        None => panic!("missing {:?} after {}", needle, from),
    }
}

#[test]
fn end_to_end_self_signed_rsa() {
    let r = parse_and_report(RSA_PEM, NOW).unwrap();
    let a = position(&r, "Certificate [0]", 0);
    let b = position(&r, "  Version: 3\n", a);
    let c = position(&r, "  Serial: 01:23:45:67:89:ab:cd:ef\n", b);
    let d = position(&r, "  Subject: C=US, O=Example Org, CN=example.com\n", c);
    let e = position(&r, "  Issuer: C=US, O=Example Org, CN=example.com\n", d);
    let f = position(&r, "    RSA Public Key: (2048 bit)\n", e);
    let g = position(&r, "    exponent: 0x10001 (65537)\n", f);
    let h = position(&r, "  Signature Algorithm: RSA\n", g);
    let i = position(&r, "      X509v3 SAN: DNS:example.com\n      X509v3 SAN: IP Address:127.0.0.1\n", h);
    assert!(i > h);
    assert!(r.contains("    NotBefore: Jan  1 00:00:00 2024 +00:00\n"));
    assert!(r.contains("    NotAfter:  Jan  1 00:00:00 2034 +00:00\n"));
    assert!(r.contains("    is_valid:  true\n"));
    assert!(r.contains("      X509v3 CA: true\n"));
    assert!(r.contains("      X509v3 Key Usage: Digital Signature, Key Encipherment, Key Cert Sign\n"));
    assert!(r.contains("Structure validation status: not evaluated\n"));
    let sv = position(&r, "  Signature Value:\n", 0);
    assert!(r[sv..].starts_with("  Signature Value:\n      "));
    assert!(!r[sv..].starts_with("  Signature Value:\n        "));
}

#[test]
fn validity_judged_at_given_time() {
    let r = parse_and_report(RSA_PEM, 1000).unwrap();
    assert!(r.contains("    is_valid:  false\n"));
    let r = parse_and_report(RSA_PEM, 1704067200).unwrap();
    assert!(r.contains("    is_valid:  true\n"));
    let r = parse_and_report(RSA_PEM, 2019686400).unwrap();
    assert!(r.contains("    is_valid:  true\n"));
    let r = parse_and_report(RSA_PEM, 2019686401).unwrap();
    assert!(r.contains("    is_valid:  false\n"));
}

#[test]
fn ec_certificate() {
    let r = parse_and_report(EC_PEM, NOW).unwrap();
    assert!(r.contains("  Serial: 07\n"));
    assert!(r.contains("  Subject: CN=ec.test\n"));
    assert!(r.contains("    EC Public Key: (256 bit)\n"));
    assert!(r.contains("  Signature Algorithm: ECDSA\n"));
    assert!(r.contains("    NotBefore: May  6 07:08:09 2020 +00:00\n"));
    assert!(r.contains("    is_valid:  false\n"));
}

#[test]
fn blocks_reported_in_order() {
    let text = format!("{}\n{}\n{}", RSA_PEM, EC_PEM, RSA_PEM);
    let r = parse_and_report(&text, NOW).unwrap();
    assert_eq!(r.matches("Certificate [").count(), 3);
    let a = position(&r, "Certificate [0]", 0);
    let b = position(&r, "Certificate [1]", a);
    let c = position(&r, "Certificate [2]", b);
    assert!(r[b..c].contains("CN=ec.test"));
    assert!(r[a..b].contains("CN=example.com"));
}

#[test]
fn no_blocks_empty_report() {
    assert_eq!(parse_and_report("", NOW), Ok(String::new()));
    assert_eq!(parse_and_report("no certificate here", NOW), Ok(String::new()));
}

#[test]
fn corrupted_third_block_fails_whole_input() {
    let bad = RSA_PEM.replace("MIIDVDCC", "MI!DVDCC");
    let text = format!("{}{}{}", RSA_PEM, EC_PEM, bad);
    assert_eq!(
        parse_and_report(&text, NOW),
        Err(DecodeError::PemDecodeError { index: 2, reason: PemFault::BadBase64 })
    );
    let m = x509_parse(&text).unwrap_err();
    assert_eq!(m, "Error while decoding PEM entry 2: invalid base64");
}

#[test]
fn unterminated_block() {
    let text = format!("{}-----BEGIN CERTIFICATE-----\nMIIB\n", RSA_PEM);
    assert_eq!(
        parse_and_report(&text, NOW),
        Err(DecodeError::PemDecodeError { index: 1, reason: PemFault::Unterminated })
    );
}

#[test]
fn malformed_der_is_structure_error() {
    let text = "-----BEGIN CERTIFICATE-----\nAgEF\n-----END CERTIFICATE-----\n";
    assert_eq!(
        parse_and_report(text, NOW),
        Err(DecodeError::DerStructureError { offset: 0, expected: 0x30, found: Found::Tag(2) })
    );
    let text = "-----BEGIN CERTIFICATE-----\nMAU=\n-----END CERTIFICATE-----\n";
    assert_eq!(
        parse_and_report(text, NOW),
        Err(DecodeError::DerStructureError { offset: 0, expected: 0x30, found: Found::BadLength })
    );
    let m = x509_parse(text).unwrap_err();
    assert_eq!(m, "DER structure error at offset 0: expected tag 48, found malformed length");
}

#[test]
fn x509_parse_reports() {
    let r = x509_parse(RSA_PEM).unwrap();
    assert!(r.starts_with("-----------------------------------------------------------------------\nCertificate [0]\n"));
}

#[test]
fn version_labels() {
    for (v, t) in [(0u64, "  Version: 1\n"), (1, "  Version: 2\n"), (2, "  Version: 3\n"), (3, "  Version: INVALID(3)\n"), (17, "  Version: INVALID(17)\n")] {
        let mut s = String::new();
        print_version(&mut s, v);
        assert_eq!(s, t);
    }
}

fn rsa_spki(exponent: &[u8]) -> SubjectPublicKeyInfo {
    let mut modulus = vec![0x02u8, 0x05, 0x00, 0xc1, 0xc2, 0xc3, 0xc4];
    let mut e = vec![0x02u8, exponent.len() as u8];
    e.extend_from_slice(exponent);
    let mut key = vec![0x30u8, (modulus.len() + e.len()) as u8];
    key.append(&mut modulus);
    key.append(&mut e);
    SubjectPublicKeyInfo {
        algorithm: AlgorithmIdentifier {
            algorithm: vec![0x2a, 0x86, 0x48, 0x86, 0xf7, 0x0d, 0x01, 0x01, 0x01],
            parameters: None,
        },
        key,
    }
}

#[test]
fn rsa_exponent_invalid_marker() {
    let mut s = String::new();
    print_x509_ski(&mut s, &rsa_spki(&[1, 2, 3, 4, 5, 6, 7, 8, 9]));
    assert!(s.contains("    RSA Public Key: (32 bit)\n        00:c1:c2:c3:c4:\n"));
    assert!(s.contains("    exponent: <INVALID>:\n00000000\t01 02 03 04 05 06 07 08 09 "));
    let mut s = String::new();
    print_x509_ski(&mut s, &rsa_spki(&[0x80]));
    assert!(s.contains("    exponent: <INVALID>:\n"));
    let mut s = String::new();
    print_x509_ski(&mut s, &rsa_spki(&[3]));
    assert!(s.contains("    exponent: 0x3 (3)\n"));
    assert!(s.starts_with("    Public Key Algorithm:\n      Oid: rsaEncryption\n      Parameter: <ABSENT>\n"));
}

#[test]
fn rsa_key_not_a_sequence_is_invalid() {
    let mut p = rsa_spki(&[3]);
    p.key[0] = 0x31;
    let mut s = String::new();
    print_x509_ski(&mut s, &p);
    assert!(s.ends_with("    INVALID PUBLIC KEY\n"));
}

#[test]
fn hex_dump_rows_and_marker() {
    let mut s = String::new();
    print_hex_dump(&mut s, &[0x41, 0x00, 0x7f], 32);
    assert_eq!(s, format!("00000000\t41 00 7f {}\tA..\n", " ".repeat(39)));
    let b: Vec<u8> = (0u8..40).collect();
    let mut s = String::new();
    print_hex_dump(&mut s, &b, 32);
    assert_eq!(s.matches('\n').count(), 3);
    assert!(s.ends_with("... <continued>\n"));
    assert!(s.contains("00000010\t10 11 "));
    let mut s = String::new();
    print_hex_dump(&mut s, &b, 40);
    assert_eq!(s.matches('\n').count(), 3);
    assert!(!s.contains("continued"));
    let mut s = String::new();
    print_hex_dump(&mut s, &[], 32);
    assert_eq!(s, "");
    let mut s = String::new();
    print_hex_dump(&mut s, &b, 0);
    assert_eq!(s, "... <continued>\n");
}

#[test]
fn colon_rows() {
    let b: Vec<u8> = (0u8..18).collect();
    let v = format_number_to_hex_with_colon(&b, 16);
    assert_eq!(v.len(), 2);
    assert_eq!(v[1], "10:11:");
    assert_eq!(v[0], "00:01:02:03:04:05:06:07:08:09:0a:0b:0c:0d:0e:0f:");
    assert!(format_number_to_hex_with_colon(&[], 16).is_empty());
}

#[test]
fn oid_names_and_dotted() {
    assert_eq!(format_oid(&[0x2a, 0x86, 0x48, 0x86, 0xf7, 0x0d, 0x01, 0x01, 0x0b]), "sha256WithRSAEncryption");
    assert_eq!(format_oid(&[0x55, 0x1d, 0x11]), "subjectAltName");
    assert_eq!(format_oid(&[0x2a, 0x03, 0x04, 0x81, 0x00]), "1.2.3.4.128");
    assert_eq!(oid_to_text(&[0x55, 0x04, 0x03]), Some("2.5.4.3".to_string()));
    assert_eq!(oid_to_text(&[0x81]), None);
    assert_eq!(oid_to_text(&[]), None);
}

fn rsa_modulus_spki(modulus: &[u8]) -> SubjectPublicKeyInfo {
    let mut m = vec![0x02u8, modulus.len() as u8];
    m.extend_from_slice(modulus);
    let mut key = vec![0x30u8, (m.len() + 3) as u8];
    key.append(&mut m);
    key.extend_from_slice(&[0x02, 0x01, 0x03]);
    SubjectPublicKeyInfo {
        algorithm: AlgorithmIdentifier {
            algorithm: vec![0x2a, 0x86, 0x48, 0x86, 0xf7, 0x0d, 0x01, 0x01, 0x01],
            parameters: None,
        },
        key,
    }
}

#[test]
fn rsa_bit_length_exact() {
    for (m, bits) in [(vec![0x81u8, 0x00], "16"), (vec![0x01u8, 0x00], "9"), (vec![0x00u8, 0x00, 0x7f], "7"), (vec![0x00u8], "0")] {
        let mut s = String::new();
        print_x509_ski(&mut s, &rsa_modulus_spki(&m));
        assert!(s.contains(&format!("    RSA Public Key: ({} bit)\n", bits)), "{}", s);
    }
}
