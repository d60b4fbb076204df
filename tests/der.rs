use devtools::oid::{format_attr_type, format_oid, oid_to_text};
use devtools::cert::{AlgorithmIdentifier, Element, Extension};
use devtools::der::{read_tlv, Tlv};
use devtools::error::Found;
use devtools::ext::{print_x509_extension, push_ip, push_san};
use devtools::sigalg::{classify_signature, print_x509_signature_algorithm, SigFamily};
use devtools::time::{parse_time, push_time};

#[test]
fn tlv_lengths() {
    assert_eq!(read_tlv(&[0x04, 0x02, 1, 2], 0, 4), Ok(Tlv { tag: 4, start: 2, len: 2 }));
    let mut long = vec![0x04u8, 0x81, 0x80];
    long.extend(std::iter::repeat(7u8).take(0x80));
    assert_eq!(read_tlv(&long, 0, long.len()), Ok(Tlv { tag: 4, start: 3, len: 0x80 }));
    assert_eq!(read_tlv(&[0x04, 0x03, 1, 2], 0, 4), Err(Found::BadLength));
    assert_eq!(read_tlv(&[0x04, 0x80], 0, 2), Err(Found::BadLength));
    assert_eq!(read_tlv(&[0x04, 0x85, 0, 0, 0, 0, 1], 0, 7), Err(Found::BadLength));
    assert_eq!(read_tlv(&[0x1f, 0x01, 0x00], 0, 3), Err(Found::Tag(0x1f)));
    assert_eq!(read_tlv(&[0x04], 0, 1), Err(Found::BadLength));
    assert_eq!(read_tlv(&[0x04, 0x00], 2, 2), Err(Found::End));
    assert_eq!(read_tlv(&[0x30, 0x02, 0x05, 0x00, 0xff], 0, 3), Err(Found::BadLength));
}

#[test]
fn times() {
    let t = parse_time(b"20491231235959Z", 0, 15, 0x18).unwrap();
    let mut s = String::new();
    push_time(&mut s, &t);
    assert_eq!(s, "Dec 31 23:59:59 2049 +00:00");
    let t = parse_time(b"500102030405Z", 0, 13, 0x17).unwrap();
    let mut s = String::new();
    push_time(&mut s, &t);
    assert_eq!(s, "Jan  2 03:04:05 1950 +00:00");
    assert!(parse_time(b"500102030405", 0, 12, 0x17).is_err());
    assert!(parse_time(b"501302030405Z", 0, 13, 0x17).is_err());
    assert!(parse_time(b"5001020304x5Z", 0, 13, 0x17).is_err());
}

fn ip(b: &[u8]) -> String {
    let mut s = String::new();
    push_ip(&mut s, b);
    s
}

#[test]
fn ip_addresses() {
    assert_eq!(ip(&[127, 0, 0, 1]), "127.0.0.1");
    let mut v6 = [0u8; 16];
    v6[0] = 0x20;
    v6[1] = 0x01;
    v6[2] = 0x0d;
    v6[3] = 0xb8;
    v6[15] = 1;
    assert_eq!(ip(&v6), "2001:db8::1");
    assert_eq!(ip(&[0u8; 16]), "::");
    let mut one = [0u8; 16];
    one[15] = 1;
    assert_eq!(ip(&one), "::1");
    let mut mapped = [0u8; 16];
    mapped[10] = 0xff;
    mapped[11] = 0xff;
    mapped[12] = 1;
    mapped[13] = 2;
    mapped[14] = 3;
    mapped[15] = 4;
    assert_eq!(ip(&mapped), "::ffff:1.2.3.4");
    let mut single = [0u8; 16];
    for (i, b) in single.iter_mut().enumerate() {
        *b = i as u8 + 1;
    }
    single[4] = 0;
    single[5] = 0;
    assert_eq!(ip(&single), "102:304:0:708:90a:b0c:d0e:f10");
    assert_eq!(ip(&[1, 2, 3, 4, 5]), "invalid (len=5)");
}

#[test]
fn san_lines_in_order() {
    let v = [0x30u8, 0x13, 0x82, 0x0b, b'e', b'x', b'a', b'm', b'p', b'l', b'e', b'.', b'c', b'o', b'm', 0x87, 0x04, 127, 0, 0, 1];
    let mut s = String::new();
    push_san(&mut s, &v);
    assert_eq!(s, "      X509v3 SAN: DNS:example.com\n      X509v3 SAN: IP Address:127.0.0.1\n");
    let v = [0x30u8, 0x05, 0x86, 0x03, b'a', b':', b'b'];
    let mut s = String::new();
    push_san(&mut s, &v);
    assert_eq!(s, "      X509v3 SAN: URI:a:b\n");
    let mut s = String::new();
    push_san(&mut s, &[0x04, 0x00]);
    assert_eq!(s, "      Invalid extension value: 04:00\n");
}

fn ext(oid: &[u8], critical: bool, value: &[u8]) -> String {
    let mut s = String::new();
    print_x509_extension(&mut s, &Extension { oid: oid.to_vec(), critical, value: value.to_vec() });
    s
}

#[test]
fn extension_kinds() {
    assert_eq!(ext(&[0x55, 0x1d, 0x13], true, &[0x30, 0x03, 0x01, 0x01, 0xff]),
        "    [crit:true l:5] basicConstraints: \n      X509v3 CA: true\n");
    assert_eq!(ext(&[0x55, 0x1d, 0x13], false, &[0x30, 0x00]),
        "    [crit:false l:2] basicConstraints: \n      X509v3 CA: false\n");
    assert_eq!(ext(&[0x55, 0x1d, 0x0f], true, &[0x03, 0x03, 0x07, 0x86, 0x80]),
        "    [crit:true l:5] keyUsage: \n      X509v3 Key Usage: Digital Signature, Key Cert Sign, CRL Sign, Decipher Only\n");
    assert_eq!(ext(&[0x60, 0x86, 0x48, 0x01, 0x86, 0xf8, 0x42, 0x01, 0x01], false, &[0x03, 0x02, 0x00, 0xc0]),
        "    [crit:false l:4] nsCertType: \n      Netscape Cert Type: SSL Client, SSL Server\n");
    assert_eq!(ext(&[0x55, 0x1d, 0x0e], false, &[0x04, 0x02, 0xab, 0xcd]),
        "    [crit:false l:4] subjectKeyIdentifier: \n      X509v3 Subject Key Identifier: ab:cd\n");
    assert_eq!(ext(&[0x2a, 0x03], false, &[0x05, 0x00]),
        "    [crit:false l:2] 1.2.3: \n      Raw: 05:00\n");
    let aki = ext(&[0x55, 0x1d, 0x23], false, &[0x30, 0x04, 0x80, 0x02, 0x01, 0x02]);
    assert_eq!(aki, "    [crit:false l:6] authorityKeyIdentifier: \n      X509v3 Authority Key Identifier\n        Key Identifier: 01:02\n");
    let crl = ext(&[0x55, 0x1d, 0x1f], false, &[0x30, 0x0b, 0x30, 0x09, 0xa0, 0x07, 0xa0, 0x05, 0x86, 0x03, b'u', b':', b'v']);
    assert_eq!(crl, "    [crit:false l:13] crlDistributionPoints: \n      X509v3 CRL Distribution Points:\n        Full Name: URI:u:v \n\n");
}

#[test]
fn signature_families() {
    let pkcs1 = [0x2au8, 0x86, 0x48, 0x86, 0xf7, 0x0d, 0x01, 0x01];
    let mut sha256_rsa = pkcs1.to_vec();
    sha256_rsa.push(0x0b);
    assert_eq!(classify_signature(&sha256_rsa), SigFamily::Rsa);
    let mut pss = pkcs1.to_vec();
    pss.push(0x0a);
    assert_eq!(classify_signature(&pss), SigFamily::RsaPss);
    let mut oaep = pkcs1.to_vec();
    oaep.push(0x07);
    assert_eq!(classify_signature(&oaep), SigFamily::RsaOaep);
    assert_eq!(classify_signature(&[0x2a, 0x86, 0x48, 0xce, 0x3d, 0x04, 0x03, 0x02]), SigFamily::Ecdsa);
    assert_eq!(classify_signature(&[0x2a, 0x86, 0x48, 0xce, 0x38, 0x04, 0x03]), SigFamily::Dsa);
    assert_eq!(classify_signature(&[0x2b, 0x65, 0x70]), SigFamily::Ed25519);
    assert_eq!(classify_signature(&[0x2b, 0x65, 0x71]), SigFamily::Unknown);
}

#[test]
fn pss_parameters_indented() {
    let params = vec![0xa0u8, 0x0f, 0x30, 0x0d, 0x06, 0x09, 0x60, 0x86, 0x48, 0x01, 0x65, 0x03, 0x04, 0x02, 0x01, 0x05, 0x00,
        0xa1, 0x1c, 0x30, 0x1a, 0x06, 0x09, 0x2a, 0x86, 0x48, 0x86, 0xf7, 0x0d, 0x01, 0x01, 0x08, 0x30, 0x0d, 0x06, 0x09,
        0x60, 0x86, 0x48, 0x01, 0x65, 0x03, 0x04, 0x02, 0x01, 0x05, 0x00, 0xa2, 0x03, 0x02, 0x01, 0x20];
    let a = AlgorithmIdentifier {
        algorithm: vec![0x2a, 0x86, 0x48, 0x86, 0xf7, 0x0d, 0x01, 0x01, 0x0a],
        parameters: Some(Element { tag: 0x30, content: params }),
    };
    let mut s = String::new();
    print_x509_signature_algorithm(&mut s, &a, 4);
    assert_eq!(s, "  Signature Algorithm: RSASSA-PSS\n      Hash Algorithm: sha256\n      Mask Generation Function: id-mgf1/sha256\n      Salt Length: 32\n");
    let a = AlgorithmIdentifier {
        algorithm: vec![0x2a, 0x86, 0x48, 0x86, 0xf7, 0x0d, 0x01, 0x01, 0x0a],
        parameters: Some(Element { tag: 0x30, content: vec![] }),
    };
    let mut s = String::new();
    print_x509_signature_algorithm(&mut s, &a, 4);
    assert!(s.contains("      Hash Algorithm: id-SHA1\n"));
    assert!(s.contains("      Mask Generation Function: id-mgf1/id-SHA1\n"));
    assert!(s.contains("      Salt Length: 20\n"));
}

#[test]
fn unclassified_algorithm_fallback() {
    let a = AlgorithmIdentifier {
        algorithm: vec![0x2a, 0x03, 0x04],
        parameters: Some(Element { tag: 0x06, content: vec![0x55, 0x1d, 0x11] }),
    };
    let mut s = String::new();
    print_x509_signature_algorithm(&mut s, &a, 4);
    assert_eq!(s, format!("  Signature Algorithm:\n    Oid: 1.2.3.4\n    Parameter: <PRESENT> subjectAltName\n00000000\t55 1d 11 {}\tU..\n", " ".repeat(39)));
    let a = AlgorithmIdentifier { algorithm: vec![0x2a, 0x03, 0x04], parameters: Some(Element { tag: 0x05, content: vec![] }) };
    let mut s = String::new();
    print_x509_signature_algorithm(&mut s, &a, 4);
    assert_eq!(s, "  Signature Algorithm:\n    Oid: 1.2.3.4\n    Parameter: <PRESENT> Null\n");
    let a = AlgorithmIdentifier { algorithm: vec![0x2a, 0x03, 0x04], parameters: None };
    let mut s = String::new();
    print_x509_signature_algorithm(&mut s, &a, 4);
    assert_eq!(s, "  Signature Algorithm:\n    Oid: 1.2.3.4\n    Parameter: <ABSENT>\n");
}

#[test]
fn directory_names_in_general_names() {
    let name = [0x30u8, 0x0c, 0x31, 0x0a, 0x30, 0x08, 0x06, 0x03, 0x55, 0x04, 0x03, 0x0c, 0x01, b'x'];
    let mut v = vec![0x30u8, 0x10, 0xa4, 0x0e];
    v.extend_from_slice(&name);
    let mut s = String::new();
    push_san(&mut s, &v);
    assert_eq!(s, "      X509v3 SAN: DirName:CN=x\n");
    let mut aki = vec![0x30u8, 0x19, 0x80, 0x01, 0xaa, 0xa1, 0x10, 0xa4, 0x0e];
    aki.extend_from_slice(&name);
    aki.extend_from_slice(&[0x82, 0x02, 0x01, 0x02]);
    assert_eq!(ext(&[0x55, 0x1d, 0x23], false, &aki),
        "    [crit:false l:27] authorityKeyIdentifier: \n      X509v3 Authority Key Identifier\n        Key Identifier: aa\n        Cert Issuer: DirName:CN=x\n        Cert Serial: 01:02\n");
    let crl = [0x30u8, 0x08, 0x30, 0x06, 0x81, 0x02, 0x01, 0x60, 0x82, 0x00];
    assert_eq!(ext(&[0x55, 0x1d, 0x1f], false, &crl),
        "    [crit:false l:10] crlDistributionPoints: \n      X509v3 CRL Distribution Points:\n        Reasons: Key Compromise, CA Compromise\n\n");
}

#[test]
fn oid_arcs_of_any_size() {
    assert_eq!(format_oid(&[0x2a, 0x81, 0x80, 0x80, 0x80, 0x80, 0x80, 0x80, 0x80, 0x00]), "1.2.72057594037927936");
    let uuid = [0x69u8, 0x83, 0xf0, 0x9d, 0xa7, 0xeb, 0xcf, 0xde, 0xe0, 0xc7, 0xa1, 0xa7, 0xb2, 0xc0, 0x94, 0x8c, 0xc8, 0xf9, 0xd7, 0x76];
    assert_eq!(oid_to_text(&uuid), Some("2.25.329800735698586629295641978511506172918".to_string()));
    assert_eq!(oid_to_text(&[0x88, 0x37, 0x03]), Some("2.999.3".to_string()));
    assert_eq!(oid_to_text(&[0x27]), Some("0.39".to_string()));
    assert_eq!(oid_to_text(&[0x2a, 0x81]), None);
    assert_eq!(format_oid(&[0x2a, 0x81]), "2a:81:");
    assert_eq!(format_attr_type(&[0x55, 0x04, 0x03]), "CN");
    assert_eq!(format_attr_type(&[0x2a, 0x03, 0x04]), "OID(1.2.3.4)");
}

fn gn(tag: u8, content: &[u8]) -> String {
    let mut s = String::new();
    devtools::ext::push_general_name(&mut s, &Element { tag, content: content.to_vec() });
    s
}

#[test]
fn general_name_forms() {
    assert_eq!(gn(0x82, b"a.example"), "DNSName:a.example");
    assert_eq!(gn(0x81, b"x@y"), "RFC822Name:x@y");
    assert_eq!(gn(0x87, &[127, 0, 0, 1]), "IPAddress:[127, 0, 0, 1]");
    assert_eq!(gn(0x88, &[0x55, 0x1d, 0x11]), "RegisteredID:2.5.29.17");
    assert_eq!(gn(0xa0, &[0x06, 0x02, 0x2a, 0x03, 0xa0, 0x01, 0x05]), "OtherName:1.2.3, [160, 1, 5]");
    assert_eq!(gn(0xa3, &[1, 2]), "X400Address:[1, 2]");
}
