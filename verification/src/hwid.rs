//! The device identity sent to panels that limit devices: a salted hash of
//! the machine's id, and readable descriptions of the device and its system.

use vstd::prelude::*;
use vstd::string::*;
use vstd::utf8::encode_utf8;

use sha2::{Digest, Sha256};

use crate::ids::new_id;
use crate::text::{
    chars_of, decimal, eq_ignore_case, eq_ignore_case_exec, parse_unsigned, parse_unsigned_exec,
    push_all, push_str, string_of,
};

verus! {

/// Fixed salt, so the raw machine id never leaves the machine.
pub const HWID_SALT: &'static str = "umbra-hwid-v1";

/// The SHA-256 digest of a byte string (32 bytes).
pub uninterp spec fn sha256_digest(bytes: Seq<u8>) -> Seq<u8>;

/// Calls `sha2::Sha256::digest`; the contract claims that the result is
/// `sha256_digest` of the input and, as for every SHA-256 digest, 32 bytes
/// long.
#[verifier::external_body]
pub(crate) fn sha256(bytes: &[u8]) -> (r: Vec<u8>)
    ensures
        r@ == sha256_digest(bytes@),
        r@.len() == 32,
{
    Sha256::digest(bytes).to_vec()
}

/// A hex digit, lower case.
pub open spec fn hex_char(d: u8) -> char {
    if d < 10 {
        ((d as u32) + 0x30) as char
    } else {
        ((d as u32) + 0x57) as char
    }
}

/// Bytes as lower-case hex, two digits each (`{:02x}`).
pub open spec fn hex_lower(bs: Seq<u8>) -> Seq<char>
    decreases bs.len(),
{
    if bs.len() == 0 {
        Seq::empty()
    } else {
        hex_lower(bs.drop_last()) + seq![hex_char(bs.last() / 16), hex_char(bs.last() % 16)]
    }
}

fn hex_char_exec(d: u8) -> (c: char)
    requires
        d < 16,
    ensures
        c == hex_char(d),
{
    if d < 10 {
        crate::text::char_from_ascii(d as u32 + 0x30)
    } else {
        crate::text::char_from_ascii(d as u32 + 0x57)
    }
}

/// The first `n` bytes as lower-case hex.
pub(crate) fn hex_prefix(bs: &Vec<u8>, n: usize) -> (r: Vec<char>)
    requires
        n <= bs@.len(),
    ensures
        r@ == hex_lower(bs@.subrange(0, n as int)),
{
    let mut r: Vec<char> = Vec::new();
    let mut i: usize = 0;
    while i < n
        invariant
            i <= n <= bs@.len(),
            r@ == hex_lower(bs@.subrange(0, i as int)),
        decreases n - i,
    {
        let b = bs[i];
        r.push(hex_char_exec(b / 16));
        r.push(hex_char_exec(b % 16));
        i += 1;
        let ghost pre = bs@.subrange(0, i as int);
        assert(pre.drop_last() =~= bs@.subrange(0, i - 1));
        assert(r@ =~= hex_lower(pre));
    }
    r
}

pub(crate) proof fn lemma_hex_len(bs: Seq<u8>)
    ensures
        hex_lower(bs).len() == 2 * bs.len(),
    decreases bs.len(),
{
    if bs.len() > 0 {
        lemma_hex_len(bs.drop_last());
    }
}

/// The id sent for a seed: the first 16 bytes of SHA-256 over the salt and
/// the seed, as 32 lower-case hex digits.
pub open spec fn hash_id_spec(seed: Seq<char>) -> Seq<char> {
    hex_lower(sha256_digest(encode_utf8(HWID_SALT@) + encode_utf8(seed)).subrange(0, 16))
}

/// Hashes a machine id with the application salt.
pub fn hash_id(seed: &str) -> (r: String)
    ensures
        r@ == hash_id_spec(seed@),
        r@.len() == 32,
{
    let mut data: Vec<u8> = Vec::new();
    let salt = HWID_SALT.as_bytes();
    let sb = seed.as_bytes();
    let mut i: usize = 0;
    while i < salt.len()
        invariant
            i <= salt@.len(),
            data@ == salt@.subrange(0, i as int),
        decreases salt.len() - i,
    {
        data.push(salt[i]);
        i += 1;
        assert(data@ =~= salt@.subrange(0, i as int));
    }
    assert(salt@.subrange(0, salt@.len() as int) =~= salt@);
    let mut j: usize = 0;
    while j < sb.len()
        invariant
            j <= sb@.len(),
            data@ == salt@ + sb@.subrange(0, j as int),
        decreases sb.len() - j,
    {
        data.push(sb[j]);
        j += 1;
        assert(data@ =~= salt@ + sb@.subrange(0, j as int));
    }
    assert(sb@.subrange(0, sb@.len() as int) =~= sb@);
    let digest = sha256(data.as_slice());
    let hex = hex_prefix(&digest, 16);
    proof {
        lemma_hex_len(digest@.subrange(0, 16));
    }
    string_of(&hex)
}

/// The stable per-machine id: the hash of the machine id when the system
/// has one; else the stored fallback when there is one; else the hash of a
/// fresh random id (which the caller stores as the next fallback).
pub fn hwid(machine_guid: Option<&str>, fallback: Option<&str>) -> (r: String)
    ensures
        machine_guid matches Some(g) ==> r@ == hash_id_spec(g@),
        machine_guid is None && (fallback matches Some(f) && f@.len() > 0) ==> r@ == fallback->0@,
        machine_guid is None && !(fallback matches Some(f) && f@.len() > 0) ==> r@.len() == 32,
{
    if let Some(guid) = machine_guid {
        return hash_id(guid);
    }
    if let Some(existing) = fallback {
        if chars_of(existing).len() > 0 {
            return String::from_str(existing);
        }
    }
    hash_id(new_id().as_str())
}

/// The device's name: manufacturer and product, the product alone when it
/// already names the manufacturer (any case), whichever one is known, or
/// `PC`.
pub open spec fn device_model_spec(manufacturer: Option<Seq<char>>, product: Option<Seq<char>>) -> Seq<char> {
    match (manufacturer, product) {
        (Some(m), Some(p)) => if !eq_ignore_case(p, m) {
            m + " "@ + p
        } else {
            p
        },
        (Some(m), None) => m,
        (None, Some(p)) => p,
        (None, None) => "PC"@,
    }
}

/// The device's marketing name, from the firmware's manufacturer and
/// product names (as read from the system, trimmed, when present).
pub fn device_model(manufacturer: Option<&str>, product: Option<&str>) -> (r: String)
    ensures
        r@ == device_model_spec(
            crate::subscription::opt_str(manufacturer),
            crate::subscription::opt_str(product),
        ),
{
    match (manufacturer, product) {
        (Some(m), Some(p)) => {
            if !eq_ignore_case_exec(&chars_of(p), &chars_of(m)) {
                let mut r = chars_of(m);
                push_str(&mut r, " ");
                push_str(&mut r, p);
                string_of(&r)
            } else {
                String::from_str(p)
            }
        },
        (Some(m), None) => String::from_str(m),
        (None, Some(p)) => String::from_str(p),
        (None, None) => String::from_str("PC"),
    }
}

/// The operating system's name for a build target (`windows`, `macos`,
/// anything else).
pub fn device_os(target_os: &str) -> (r: String)
    ensures
        r@ == if target_os@ == "windows"@ {
            "Windows"@
        } else if target_os@ == "macos"@ {
            "macOS"@
        } else {
            "Linux"@
        },
{
    let t = chars_of(target_os);
    if crate::text::eq_str(&t, "windows") {
        String::from_str("Windows")
    } else if crate::text::eq_str(&t, "macos") {
        String::from_str("macOS")
    } else {
        String::from_str("Linux")
    }
}

/// The display version: `11` from build 22000 on, `10` below it, the
/// product name (or `Windows`) without a readable build; followed by the
/// build in brackets when there is one.
pub open spec fn os_version_spec(build: Option<Seq<char>>, product: Option<Seq<char>>) -> Seq<char> {
    let major = match build {
        Some(b) => match parse_unsigned(b, 4294967295) {
            Some(n) => if n >= 22000 {
                "11"@
            } else {
                "10"@
            },
            None => match product {
                Some(p) => p,
                None => "Windows"@,
            },
        },
        None => match product {
            Some(p) => p,
            None => "Windows"@,
        },
    };
    match build {
        Some(b) => major + " ("@ + b + ")"@,
        None => major,
    }
}

/// The Windows display version, e.g. `11 (26100)`, from the build number and
/// product name (as read from the system, trimmed, when present).
pub fn os_version(build: Option<&str>, product: Option<&str>) -> (r: String)
    ensures
        r@ == os_version_spec(
            crate::subscription::opt_str(build),
            crate::subscription::opt_str(product),
        ),
{
    let fallback = match product {
        Some(p) => chars_of(p),
        None => chars_of("Windows"),
    };
    match build {
        Some(b) => {
            let major = match parse_unsigned_exec(&chars_of(b), 4294967295) {
                Some(n) => if n >= 22000 {
                    chars_of("11")
                } else {
                    chars_of("10")
                },
                None => fallback,
            };
            let mut r = major;
            push_str(&mut r, " (");
            push_str(&mut r, b);
            push_str(&mut r, ")");
            string_of(&r)
        },
        None => string_of(&fallback),
    }
}

/// Every description is non-empty whenever what it is built from is.
pub proof fn lemma_descriptions_non_empty(
    manufacturer: Option<Seq<char>>,
    product: Option<Seq<char>>,
    build: Option<Seq<char>>,
)
    requires
        manufacturer matches Some(m) ==> m.len() > 0,
        product matches Some(p) ==> p.len() > 0,
    ensures
        device_model_spec(manufacturer, product).len() > 0,
        os_version_spec(build, product).len() > 0,
{
    reveal_strlit("PC");
    reveal_strlit("Windows");
    reveal_strlit("11");
    reveal_strlit("10");
    reveal_strlit(" (");
    reveal_strlit(" ");
}

} // verus!
