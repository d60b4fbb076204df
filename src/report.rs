//! The report: each certificate's fields in a fixed order, for every PEM
//! block of the input, or the first error.

use std::time::{SystemTime, UNIX_EPOCH};
use vstd::prelude::*;
use vstd::string::StringSliceAdditionalSpecFns;
use crate::cert::{Certificate, parse_certificate, cert_ok, cert_err, decoded_from};
use crate::error::{DecodeError, PemFault, error_text};
use crate::ext::{bool_text, ext_text, print_x509_extension};
use crate::name::{colon_joined, name_text, push_colon_joined, push_name};
use crate::pem::{pem_next, next_block};
use crate::pubkey::{rows_text, spki_text, print_x509_ski, push_rows};
use crate::sigalg::{print_x509_signature_algorithm, sig_family, family_line, unclassified_text, SigFamily, rsa_params_spec, params_text};
use crate::text::{decimal, push_decimal, push_str, push_char};
use crate::time::{Time, time_text, unix_seconds, push_time, to_unix_seconds};

verus! {

/// The version line: `Version: 1` to `Version: 3` for the encoded values 0 to 2,
/// `Version: INVALID(n)` for any other value `n`.
pub open spec fn version_text(v: nat) -> Seq<char> {
    if v < 3 {
        "  Version: "@ + decimal(v + 1) + seq!['\n']
    } else {
        "  Version: INVALID("@ + decimal(v) + ")\n"@
    }
}

/// Appends the version line.
pub fn print_version(out: &mut String, v: u64)
    ensures
        final(out)@ == old(out)@ + version_text(v as nat),
{
    if v < 3 {
        push_str(out, "  Version: ");
        push_decimal(out, v + 1);
        push_char(out, '\n');
    } else {
        push_str(out, "  Version: INVALID(");
        push_decimal(out, v);
        push_str(out, ")\n");
    }
    assert(final(out)@ =~= old(out)@ + version_text(v as nat));
}

/// Whether `now` (seconds since the Unix epoch) lies within the validity window.
pub open spec fn is_valid_at(nb: Time, na: Time, now: int) -> bool {
    unix_seconds(nb) <= now <= unix_seconds(na)
}

/// The validity lines, with the window's status at `now`.
pub open spec fn validity_text(nb: Time, na: Time, now: int) -> Seq<char> {
    "  Validity:\n"@
        + "    NotBefore: "@ + time_text(nb) + seq!['\n']
        + "    NotAfter:  "@ + time_text(na) + seq!['\n']
        + "    is_valid:  "@ + bool_text(is_valid_at(nb, na, now)) + seq!['\n']
}

/// Version, serial, subject and issuer lines.
pub open spec fn id_text(c: Certificate) -> Seq<char> {
    let t = c.tbs;
    version_text(t.version as nat)
        + "  Serial: "@ + colon_joined(t.serial@) + seq!['\n']
        + "  Subject: "@ + name_text(t.subject) + seq!['\n']
        + "  Issuer: "@ + name_text(t.issuer) + seq!['\n']
}

/// The leading part of a certificate's text: version, serial, subject, issuer,
/// validity with its status at `now`, and the public key block.
#[verifier::opaque]
pub open spec fn cert_head_text(c: Certificate, now: int) -> Seq<char> {
    let t = c.tbs;
    id_text(c)
        + validity_text(t.validity.not_before, t.validity.not_after, now)
        + "  Subject Public Key Info:\n"@ + spki_text(t.spki)
}

fn push_validity(out: &mut String, nb: &Time, na: &Time, now: i64)
    requires
        nb.wf(),
        na.wf(),
    ensures
        final(out)@ == old(out)@ + validity_text(*nb, *na, now as int),
{
    push_str(out, "  Validity:\n");
    push_str(out, "    NotBefore: ");
    push_time(out, nb);
    push_char(out, '\n');
    push_str(out, "    NotAfter:  ");
    push_time(out, na);
    push_char(out, '\n');
    push_str(out, "    is_valid:  ");
    let b = to_unix_seconds(nb);
    let a = to_unix_seconds(na);
    let valid = b <= now && now <= a;
    if valid { push_str(out, "true"); } else { push_str(out, "false"); }
    push_char(out, '\n');
    assert(final(out)@ =~= old(out)@ + validity_text(*nb, *na, now as int));
}

fn push_id(out: &mut String, c: &Certificate)
    ensures
        final(out)@ == old(out)@ + id_text(*c),
{
    let t = &c.tbs;
    print_version(out, t.version);
    push_str(out, "  Serial: ");
    push_colon_joined(out, t.serial.as_slice());
    push_char(out, '\n');
    push_str(out, "  Subject: ");
    push_name(out, &t.subject);
    push_char(out, '\n');
    push_str(out, "  Issuer: ");
    push_name(out, &t.issuer);
    push_char(out, '\n');
    assert(final(out)@ =~= old(out)@ + id_text(*c));
}

fn push_head(out: &mut String, c: &Certificate, now: i64)
    requires
        c.wf(),
    ensures
        final(out)@ == old(out)@ + cert_head_text(*c, now as int),
{
    let t = &c.tbs;
    push_id(out, c);
    push_validity(out, &t.validity.not_before, &t.validity.not_after, now);
    push_str(out, "  Subject Public Key Info:\n");
    print_x509_ski(out, &t.spki);
    reveal(cert_head_text);
    assert(final(out)@ =~= old(out)@ + cert_head_text(*c, now as int));
}

/// The signature value block: a heading, then rows of sixteen bytes, each after six spaces.
pub open spec fn signature_value_text(c: Certificate) -> Seq<char> {
    "  Signature Value:\n"@ + rows_text(c.signature_value@, "      "@)
}

/// The lines that close a certificate's report.
pub open spec fn status_text() -> Seq<char> {
    "\nStructure validation status: not evaluated\n"@ + "Signature verification: not evaluated\n"@
}

/// The blocks of extension texts, one after another.
pub open spec fn concat(parts: Seq<Seq<char>>, n: nat) -> Seq<char>
    decreases n,
{
    if n == 0 { seq![] } else { concat(parts, (n - 1) as nat) + parts[n - 1] }
}

/// A certificate's report laid out from its parts: the leading fields, the
/// signature algorithm block `sig`, the signature value, the extension blocks
/// `exts`, and the status lines.
pub open spec fn info_text(c: Certificate, now: int, sig: Seq<char>, exts: Seq<char>) -> Seq<char> {
    cert_head_text(c, now) + sig + signature_value_text(c) + "  Extensions:\n"@ + exts + status_text()
}

/// What the signature algorithm block is, for every family.
#[verifier::opaque]
pub open spec fn sig_block_ok(c: Certificate, sig: Seq<char>) -> bool {
    let f = sig_family(c.signature_algorithm.algorithm@);
    (f == SigFamily::Unknown ==> sig == unclassified_text(c.signature_algorithm, 4))
        && (f != SigFamily::Unknown && f != SigFamily::RsaPss && f != SigFamily::RsaOaep ==> sig == family_line(f))
        && (f == SigFamily::RsaPss || f == SigFamily::RsaOaep ==> match rsa_params_spec(c.signature_algorithm.parameters, f == SigFamily::RsaPss) {
            Some(v) => sig == family_line(f) + params_text(v, f == SigFamily::RsaPss, 4),
            None => sig == unclassified_text(c.signature_algorithm, 4),
        })
}

/// One text per extension, in encoded order, each that extension's whole text.
pub open spec fn ext_blocks_ok(c: Certificate, parts: Seq<Seq<char>>) -> bool {
    let xs = c.tbs.extensions@;
    parts.len() == xs.len() && forall|i: int| 0 <= i < xs.len() ==> #[trigger] parts[i] == ext_text(xs[i])
}

/// The signature algorithm block of a certificate.
fn signature_block(c: &Certificate) -> (sig: String)
    ensures
        sig_block_ok(*c, sig@),
{
    let mut sig = String::new();
    print_x509_signature_algorithm(&mut sig, &c.signature_algorithm, 4);
    proof {
        reveal(sig_block_ok);
    }
    sig
}

fn push_extensions(out: &mut String, c: &Certificate) -> (parts: Ghost<Seq<Seq<char>>>)
    ensures
        ext_blocks_ok(*c, parts@),
        final(out)@ == old(out)@ + concat(parts@, parts@.len()),
{
    let ghost a = out@;
    let ghost mut parts: Seq<Seq<char>> = seq![];
    let mut i: usize = 0;
    while i < c.tbs.extensions.len()
        invariant
            i <= c.tbs.extensions@.len(),
            parts.len() == i,
            forall|j: int| 0 <= j < i ==> #[trigger] parts[j] == ext_text(c.tbs.extensions@[j]),
            out@ == a + concat(parts, i as nat),
        decreases c.tbs.extensions@.len() - i,
    {
        let ghost before = out@;
        let mut block = String::new();
        print_x509_extension(&mut block, &c.tbs.extensions[i]);
        push_str(out, block.as_str());
        proof {
            let np = parts.push(block@);
            assert forall|j: int| 0 <= j < i + 1 implies #[trigger] np[j] == ext_text(c.tbs.extensions@[j]) by {
                if j < i {
                    assert(np[j] == parts[j]);
                }
            }
            assert(np.drop_last() =~= parts);
            assert(concat(np, (i + 1) as nat) == concat(parts, i as nat) + block@) by {
                lemma_concat_prefix(parts, np, i as nat);
            }
            parts = np;
        }
        i = i + 1;
    }
    Ghost(parts)
}

proof fn lemma_concat_prefix(a: Seq<Seq<char>>, b: Seq<Seq<char>>, n: nat)
    requires
        n <= a.len(),
        n <= b.len(),
        forall|i: int| 0 <= i < n ==> a[i] == b[i],
    ensures
        concat(a, n) == concat(b, n),
    decreases n,
{
    if n > 0 {
        lemma_concat_prefix(a, b, (n - 1) as nat);
    }
}

/// Appends the report of one certificate, its validity judged at `now`
/// (seconds since the Unix epoch): the leading fields, the signature
/// algorithm block, the signature value in rows of sixteen bytes, one block
/// per extension in encoded order, and the validation status lines.
pub fn print_x509_info(out: &mut String, c: &Certificate, now: i64)
    requires
        c.wf(),
    ensures
        exists|sig: Seq<char>, parts: Seq<Seq<char>>|
            sig_block_ok(*c, sig) && ext_blocks_ok(*c, parts)
            && final(out)@ == old(out)@ + #[trigger] info_text(*c, now as int, sig, concat(parts, parts.len())),
{
    let ghost a = out@;
    let mut head = String::new();
    push_head(&mut head, c, now);
    let sig = signature_block(c);
    let mut rest = String::new();
    push_str(&mut rest, "  Signature Value:\n");
    push_rows(&mut rest, c.signature_value.as_slice(), "      ");
    push_str(&mut rest, "  Extensions:\n");
    let ghost before_exts = rest@;
    let parts = push_extensions(&mut rest, c);
    let ghost exts = concat(parts@, parts@.len());
    push_str(&mut rest, "\nStructure validation status: not evaluated\n");
    push_str(&mut rest, "Signature verification: not evaluated\n");
    push_str(out, head.as_str());
    push_str(out, sig.as_str());
    push_str(out, rest.as_str());
    proof {
        assert(out@ =~= a + info_text(*c, now as int, sig@, exts));
    }
}

/// `body` is the report, at `now`, of a certificate decoded from `der`.
pub open spec fn block_report(body: Seq<char>, der: Seq<u8>, now: int) -> bool {
    exists|c: Certificate, sig: Seq<char>, parts: Seq<Seq<char>>|
        decoded_from(c, der) && sig_block_ok(c, sig) && ext_blocks_ok(c, parts)
            && body == #[trigger] info_text(c, now, sig, concat(parts, parts.len()))
}

/// `t` is the report at `now` of the certificates `blocks`: each under its header,
/// in order, each body the report of the certificate decoded from its block.
#[verifier::opaque]
pub open spec fn is_report(t: Seq<char>, blocks: Seq<Seq<u8>>, now: int) -> bool {
    exists|bodies: Seq<Seq<char>>|
        bodies.len() == blocks.len() && t == #[trigger] joined(bodies, blocks.len())
        && forall|i: int| 0 <= i < blocks.len() ==> block_report(#[trigger] bodies[i], blocks[i], now)
}

/// `t` is the report of `blocks` at some time.
pub open spec fn is_report_at_some_time(t: Seq<char>, blocks: Seq<Seq<u8>>) -> bool {
    exists|at: int| #[trigger] is_report(t, blocks, at)
}

/// Block `k` is the first that does not decode as a certificate.
pub open spec fn fails_first_at(blocks: Seq<Seq<u8>>, k: int) -> bool {
    0 <= k < blocks.len() && (forall|i: int| 0 <= i < k ==> cert_ok(#[trigger] blocks[i])) && !cert_ok(blocks[k])
}

/// `e` is the error of the first block that does not decode as a certificate.
pub open spec fn first_der_error(blocks: Seq<Seq<u8>>, e: DecodeError) -> bool {
    exists|k: int| #[trigger] fails_first_at(blocks, k) && e == cert_err(blocks[k])
}

/// Whether every block decodes as a certificate.
pub open spec fn all_certs(blocks: Seq<Seq<u8>>) -> bool {
    forall|i: int| 0 <= i < blocks.len() ==> cert_ok(#[trigger] blocks[i])
}

/// The decoded blocks from position `p` on, up to the first malformed one,
/// and why that one is malformed, if there is one.
pub open spec fn pem_split(s: Seq<u8>, p: int) -> (Seq<Seq<u8>>, Option<PemFault>)
    decreases s.len() + 1 - p,
{
    match pem_next(s, p) {
        None => (seq![], None),
        Some(Err(f)) => (seq![], Some(f)),
        Some(Ok((d, q))) => if p < q <= s.len() {
            let (r, f) = pem_split(s, q);
            (seq![d] + r, f)
        } else {
            (seq![], None)
        },
    }
}

/// The line that opens the report of certificate `k`.
pub open spec fn cert_header(k: nat) -> Seq<char> {
    "-----------------------------------------------------------------------\nCertificate ["@
        + decimal(k) + "]\n"@
}

/// The reports of the first `n` certificates, each under its header, in order.
pub open spec fn joined(bodies: Seq<Seq<char>>, n: nat) -> Seq<char>
    decreases n,
{
    if n == 0 {
        seq![]
    } else {
        joined(bodies, (n - 1) as nat) + cert_header((n - 1) as nat) + bodies[n - 1]
    }
}

/// Decodes every certificate block of `pem` and reports them in input order,
/// validity judged at `now` (seconds since the Unix epoch). Nothing is reported
/// when a block fails: the first error is returned instead, a malformed PEM
/// block with its index, or malformed DER.
pub fn parse_and_report(pem: &str, now: i64) -> (r: Result<String, DecodeError>)
    ensures
        ({
            let (blocks, fault) = pem_split(pem.spec_bytes(), 0);
            &&& r matches Ok(t) ==> fault is None && is_report(t@, blocks, now as int)
            &&& r matches Err(DecodeError::PemDecodeError { index, reason })
                ==> fault == Some(reason) && index == blocks.len()
            &&& r matches Err(DecodeError::DerStructureError { .. }) ==> blocks.len() > 0
            &&& (r is Err && r->Err_0 is DerStructureError) ==> first_der_error(blocks, r->Err_0)
            &&& fault is Some ==> r is Err
            &&& r is Ok <==> (fault is None && all_certs(blocks))
            &&& (r is Err && r->Err_0 is PemDecodeError) <==> (fault is Some && all_certs(blocks))
        }),
{
    let s = pem.as_bytes();
    let ghost sb = s@;
    let mut out = String::new();
    let mut p: usize = 0;
    let mut k: usize = 0;
    let ghost mut done: Seq<Seq<u8>> = seq![];
    let ghost mut bodies: Seq<Seq<char>> = seq![];
    loop
        invariant
            sb == pem.spec_bytes(),
            sb == s@,
            p <= s@.len(),
            k <= p,
            k == done.len(),
            bodies.len() == k,
            out@ == joined(bodies, k as nat),
            forall|i: int| 0 <= i < k ==> block_report(#[trigger] bodies[i], done[i], now as int),
            forall|i: int| 0 <= i < done.len() ==> cert_ok(#[trigger] done[i]),
            pem_split(sb, 0) == ((done + pem_split(sb, p as int).0), pem_split(sb, p as int).1),
        decreases s@.len() + 1 - p,
    {
        match next_block(s, p) {
            None => {
                assert(pem_split(sb, p as int) == (Seq::<Seq<u8>>::empty(), Option::<PemFault>::None));
                assert(done + pem_split(sb, p as int).0 =~= done);
                assert(pem_split(sb, 0).0 == done);
                assert(pem_split(sb, 0).1 is None);
                assert(bodies.len() == pem_split(sb, 0).0.len() && out@ == joined(bodies, pem_split(sb, 0).0.len()));
                proof {
                    reveal(is_report);
                    assert(is_report(out@, pem_split(sb, 0).0, now as int));
                }
                return Ok(out);
            }
            Some(Err(f)) => {
                assert(done + pem_split(sb, p as int).0 =~= done);
                assert(pem_split(sb, 0).0 == done);
                return Err(DecodeError::PemDecodeError { index: k, reason: f });
            }
            Some(Ok((der, q))) => {
                let ghost rest = pem_split(sb, q as int);
                assert(pem_split(sb, p as int) == (seq![der@] + rest.0, rest.1));
                let c = match parse_certificate(der.as_slice()) {
                    Ok(c) => c,
                    Err(e) => {
                        assert(done + pem_split(sb, p as int).0 =~= done.push(der@) + rest.0);
                        assert(pem_split(sb, 0).0[k as int] == der@);
                        proof {
                            let bl = pem_split(sb, 0).0;
                            assert forall|i: int| 0 <= i < k implies cert_ok(#[trigger] bl[i]) by {
                                assert(bl[i] == done[i]);
                            }
                            assert(fails_first_at(bl, k as int));
                        }
                        return Err(e);
                    }
                };
                let ghost before = out@;
                let body = push_block(&mut out, k, &c, now, Ghost(der@));
                proof {
                    let nb = bodies.push(body@);
                    assert(nb.drop_last() =~= bodies);
                    lemma_joined_prefix(bodies, nb, k as nat);
                    assert forall|i: int| 0 <= i < k + 1 implies block_report(#[trigger] nb[i], done.push(der@)[i], now as int) by {
                        if i < k {
                            assert(nb[i] == bodies[i]);
                            assert(done.push(der@)[i] == done[i]);
                        }
                    }
                    bodies = nb;
                    assert(done.push(der@) + rest.0 =~= done + (seq![der@] + rest.0));
                    done = done.push(der@);
                    assert forall|i: int| 0 <= i < done.len() implies cert_ok(#[trigger] done[i]) by {
                        if i < done.len() - 1 {
                            assert(done[i] == done.drop_last()[i]);
                        }
                    }
                }
                p = q;
                k = k + 1;
            }
        }
    }
}

/// Appends certificate `k` under its header; the ghost result is the text after the header.
fn push_block(out: &mut String, k: usize, c: &Certificate, now: i64, der: Ghost<Seq<u8>>) -> (body: Ghost<Seq<char>>)
    requires
        c.wf(),
        decoded_from(*c, der@),
    ensures
        final(out)@ == old(out)@ + cert_header(k as nat) + body@,
        block_report(body@, der@, now as int),
{
    push_str(out, "-----------------------------------------------------------------------\nCertificate [");
    push_decimal(out, k as u64);
    push_str(out, "]\n");
    let ghost mid = out@;
    assert(mid =~= old(out)@ + cert_header(k as nat));
    let mut text = String::new();
    print_x509_info(&mut text, c, now);
    push_str(out, text.as_str());
    Ghost(text@)
}

proof fn lemma_joined_prefix(a: Seq<Seq<char>>, b: Seq<Seq<char>>, n: nat)
    requires
        n <= a.len(),
        n <= b.len(),
        forall|i: int| 0 <= i < n ==> a[i] == b[i],
    ensures
        joined(a, n) == joined(b, n),
    decreases n,
{
    if n > 0 {
        lemma_joined_prefix(a, b, (n - 1) as nat);
    }
}

/// Relies on `std::time::SystemTime::now`: the current time as whole seconds
/// since the Unix epoch (negative before it). Nothing is known of the value.
#[verifier::external_body]
fn unix_now() -> i64 {
    match SystemTime::now().duration_since(UNIX_EPOCH) {
        Ok(d) => d.as_secs() as i64,
        Err(e) => -(e.duration().as_secs() as i64),
    }
}

/// Reports every certificate of `pem`, validity judged now; on failure the
/// error's message. A malformed PEM block always makes it fail.
pub fn x509_parse(pem: &str) -> (r: Result<String, String>)
    ensures
        r is Ok <==> (pem_split(pem.spec_bytes(), 0).1 is None && all_certs(pem_split(pem.spec_bytes(), 0).0)),
        r matches Ok(t) ==> is_report_at_some_time(t@, pem_split(pem.spec_bytes(), 0).0),
        r matches Err(m) ==> ({
            let (blocks, fault) = pem_split(pem.spec_bytes(), 0);
            fault is Some && all_certs(blocks) ==> m@ == error_text(
                DecodeError::PemDecodeError { index: blocks.len() as usize, reason: fault->Some_0 })
        }),
        r matches Err(m) ==> ({
            let (blocks, fault) = pem_split(pem.spec_bytes(), 0);
            !(fault is Some && all_certs(blocks)) ==> exists|e: DecodeError|
                e is DerStructureError && first_der_error(blocks, e) && m@ == #[trigger] error_text(e)
        }),
{
    let now = unix_now();
    let ghost blocks = pem_split(pem.spec_bytes(), 0).0;
    match parse_and_report(pem, now) {
        Ok(t) => {
            assert(pem_split(pem.spec_bytes(), 0).1 is None);
            assert(is_report(t@, pem_split(pem.spec_bytes(), 0).0, now as int));
            assert(is_report_at_some_time(t@, blocks));
            Ok(t)
        }
        Err(e) => {
            let m = e.to_text();
            proof {
                let fault = pem_split(pem.spec_bytes(), 0).1;
                if e is DerStructureError {
                    assert(e is DerStructureError && first_der_error(blocks, e) && m@ == error_text(e));
                } else {
                    assert(fault is Some && all_certs(blocks));
                    assert(e == DecodeError::PemDecodeError { index: blocks.len() as usize, reason: fault->Some_0 });
                }
            }
            Err(m)
        }
    }
}

} // verus!
