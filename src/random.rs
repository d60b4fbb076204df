//! Random identifiers and passwords.

use passwords::PasswordGenerator;
use uuid::Uuid;
use vstd::prelude::*;

verus! {

/// A lower-case hex digit.
pub open spec fn is_lower_hex(c: char) -> bool {
    ('0' <= c <= '9') || ('a' <= c <= 'f')
}

/// The hyphenated text of a UUID of version `v`: groups of 8, 4, 4, 4 and 12
/// lower-case hex digits joined by `-`, the version digit first in the third
/// group, and the variant digit (8, 9, a or b) first in the fourth.
pub open spec fn uuid_text(s: Seq<char>, v: char) -> bool {
    &&& s.len() == 36
    &&& forall|i: int| 0 <= i < 36 ==> (if i == 8 || i == 13 || i == 18 || i == 23 {
        s[i] == '-'
    } else {
        is_lower_hex(#[trigger] s[i])
    })
    &&& s[14] == v
    &&& (s[19] == '8' || s[19] == '9' || s[19] == 'a' || s[19] == 'b')
}

/// Relies on `uuid::Uuid::new_v4` (version 4, RFC 4122 variant bits set) and its
/// `Display`, the lower-case hyphenated form.
#[verifier::external_body]
fn random_uuid_v4() -> (r: String)
    ensures
        uuid_text(r@, '4'),
{
    Uuid::new_v4().into()
}

/// Relies on `uuid::Uuid::now_v7` (version 7, RFC 4122 variant bits set) and its
/// `Display`, the lower-case hyphenated form.
#[verifier::external_body]
fn time_uuid_v7() -> (r: String)
    ensures
        uuid_text(r@, '7'),
{
    Uuid::now_v7().into()
}

/// How many kinds of characters are enabled.
pub open spec fn kinds(numbers: bool, lower: bool, upper: bool, symbols: bool) -> nat {
    (if numbers { 1nat } else { 0 }) + (if lower { 1nat } else { 0 }) + (if upper { 1nat } else { 0 })
        + (if symbols { 1nat } else { 0 })
}

/// Whether a password generator with these settings refuses to work: no length,
/// no kind of character, or (strict) fewer characters than kinds that must all occur.
pub open spec fn refused(length: nat, numbers: bool, lower: bool, upper: bool, symbols: bool, strict: bool) -> bool {
    length == 0 || kinds(numbers, lower, upper, symbols) == 0
        || (strict && length < kinds(numbers, lower, upper, symbols))
}

/// ASCII punctuation: the symbols a password may hold.
pub open spec fn is_symbol(c: char) -> bool {
    ('!' <= c <= '/') || (':' <= c <= '@') || ('[' <= c <= '`') || ('{' <= c <= '~')
}

/// Whether `c` belongs to one of the enabled kinds.
pub open spec fn allowed(c: char, numbers: bool, lower: bool, upper: bool, symbols: bool) -> bool {
    (numbers && '0' <= c <= '9') || (lower && 'a' <= c <= 'z') || (upper && 'A' <= c <= 'Z')
        || (symbols && is_symbol(c))
}

/// Whether a password holds only enabled kinds and, with `strict`, every enabled kind.
pub open spec fn password_ok(p: Seq<char>, numbers: bool, lower: bool, upper: bool, symbols: bool, strict: bool) -> bool {
    &&& forall|i: int| 0 <= i < p.len() ==> allowed(#[trigger] p[i], numbers, lower, upper, symbols)
    &&& strict ==> {
        &&& numbers ==> exists|i: int| 0 <= i < p.len() && '0' <= #[trigger] p[i] <= '9'
        &&& lower ==> exists|i: int| 0 <= i < p.len() && 'a' <= #[trigger] p[i] <= 'z'
        &&& upper ==> exists|i: int| 0 <= i < p.len() && 'A' <= #[trigger] p[i] <= 'Z'
        &&& symbols ==> exists|i: int| 0 <= i < p.len() && is_symbol(#[trigger] p[i])
    }
}

/// Relies on `passwords::PasswordGenerator::generate` (no spaces, similar characters
/// allowed): it refuses the settings `refused` describes, else gives `count`
/// passwords of `length` characters each, drawn from the enabled kinds' pools
/// (digits, lower-case, upper-case, ASCII punctuation), every kind present when
/// `strict` (it redraws until the mask of kinds is complete).
#[verifier::external_body]
fn generate(count: usize, length: usize, numbers: bool, lower: bool, upper: bool, symbols: bool, strict: bool)
    -> (r: Result<Vec<String>, String>)
    ensures
        r is Err <==> refused(length as nat, numbers, lower, upper, symbols, strict),
        r matches Ok(v) ==> v@.len() == count && forall|i: int| 0 <= i < v@.len() ==> (#[trigger] v@[i])@.len() == length,
        r matches Ok(v) ==> forall|i: int| 0 <= i < v@.len()
            ==> password_ok((#[trigger] v@[i])@, numbers, lower, upper, symbols, strict),
{
    let pg = PasswordGenerator {
        length,
        numbers,
        lowercase_letters: lower,
        uppercase_letters: upper,
        symbols,
        strict,
        spaces: false,
        exclude_similar_characters: false,
    };
    pg.generate(count).map_err(|e| e.to_string())
}

/// A random (version 4) UUID in hyphenated form.
pub fn gen_uuid_v4() -> (r: String)
    ensures
        uuid_text(r@, '4'),
{
    random_uuid_v4()
}

/// A time-ordered (version 7) UUID in hyphenated form.
pub fn gen_uuid_v7() -> (r: String)
    ensures
        uuid_text(r@, '7'),
{
    time_uuid_v7()
}

/// `count` random passwords of `length` characters drawn from the enabled kinds
/// (with `strict`, each holds every enabled kind); an error when the settings
/// cannot give any.
pub fn gen_passwords(count: usize, length: usize, numbers: bool, loweralpha: bool, upperalpha: bool,
    symbols: bool, strict: bool) -> (r: Result<Vec<String>, String>)
    ensures
        r is Err <==> refused(length as nat, numbers, loweralpha, upperalpha, symbols, strict),
        r matches Ok(v) ==> v@.len() == count && forall|i: int| 0 <= i < v@.len() ==> (#[trigger] v@[i])@.len() == length,
        r matches Ok(v) ==> forall|i: int| 0 <= i < v@.len()
            ==> password_ok((#[trigger] v@[i])@, numbers, loweralpha, upperalpha, symbols, strict),
{
    generate(count, length, numbers, loweralpha, upperalpha, symbols, strict)
}

} // verus!
