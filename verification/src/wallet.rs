//! Wallet-file seed parsing: the wallet key file is a JSON object whose
//! `secretSeed` member is the string `"0x"` followed by 64 hex digits,
//! 32 bytes of seed. Anything else is an invalid wallet file.

use vstd::prelude::*;

verus! {

/// The string value of the member named `key` in the JSON object that
/// `text` spells, if `text` is a JSON object with such a member.
pub uninterp spec fn json_string_field(text: Seq<char>, key: Seq<char>) -> Option<Seq<char>>;

/// Relies on serde_json::from_str and Value::get / Value::as_str:
/// parsing a JSON document and reading one string member is a function
/// of the text and the key alone.
#[verifier::external_body]
fn get_json_string_field(text: &str, key: &str) -> (r: Option<String>)
    ensures
        match r {
            Some(s) => json_string_field(text@, key@) == Some(s@),
            None => json_string_field(text@, key@) is None,
        },
{
    let value: serde_json::Value = serde_json::from_str(text).ok()?;
    let field = value.get(key)?;
    field.as_str().map(|s| s.to_string())
}

/// Why a wallet file was rejected.
#[derive(Clone, Copy, Debug, PartialEq, Eq, Structural)]
pub enum WalletError {
    /// No `secretSeed` member, or one that is not `"0x"` + 64 hex digits.
    InvalidWalletFile,
}

/// A hexadecimal digit.
pub open spec fn is_hex_digit(c: char) -> bool {
    ('0' <= c && c <= '9') || ('a' <= c && c <= 'f') || ('A' <= c && c <= 'F')
}

/// The value of a hexadecimal digit (0 for a non-digit).
pub open spec fn hex_val(c: char) -> nat {
    if '0' <= c && c <= '9' {
        (c as nat - '0' as nat) as nat
    } else if 'a' <= c && c <= 'f' {
        (c as nat - 'a' as nat + 10) as nat
    } else if 'A' <= c && c <= 'F' {
        (c as nat - 'A' as nat + 10) as nat
    } else {
        0
    }
}

/// A well-formed seed string: `"0x"` followed by exactly 64 hex digits.
pub open spec fn is_hex_seed_string(s: Seq<char>) -> bool {
    s.len() == 66 && s[0] == '0' && s[1] == 'x' && forall|i: int|
        2 <= i < 66 ==> is_hex_digit(#[trigger] s[i])
}

/// The 32 seed bytes that a well-formed seed string spells.
pub open spec fn seed_bytes_of(s: Seq<char>) -> Seq<u8> {
    Seq::new(32, |j: int| (hex_val(s[2 + 2 * j]) * 16 + hex_val(s[2 + 2 * j + 1])) as u8)
}

/// Reads one hex digit, or nothing.
fn hex_digit_value(c: char) -> (r: Option<u8>)
    ensures
        match r {
            Some(v) => is_hex_digit(c) && v as nat == hex_val(c) && v < 16,
            None => !is_hex_digit(c),
        },
{
    let u = c as u32;
    if c >= '0' && c <= '9' {
        Some((u - 48) as u8)
    } else if c >= 'a' && c <= 'f' {
        Some((u - 97 + 10) as u8)
    } else if c >= 'A' && c <= 'F' {
        Some((u - 65 + 10) as u8)
    } else {
        None
    }
}

/// Decodes a seed string into its 32 bytes: succeeds exactly when the
/// string is `"0x"` followed by 64 hex digits, and then the bytes are
/// the digits' values, two digits to a byte.
pub fn decode_hex_seed(s: &str) -> (r: Result<Vec<u8>, WalletError>)
    ensures
        match r {
            Ok(b) => is_hex_seed_string(s@) && b@ == seed_bytes_of(s@) && b@.len() == 32,
            Err(e) => !is_hex_seed_string(s@) && e == WalletError::InvalidWalletFile,
        },
{
    if s.unicode_len() != 66 {
        return Err(WalletError::InvalidWalletFile);
    }
    if s.get_char(0) != '0' || s.get_char(1) != 'x' {
        return Err(WalletError::InvalidWalletFile);
    }
    let mut out: Vec<u8> = Vec::new();
    let mut j: usize = 0;
    while j < 32
        invariant
            j <= 32,
            s@.len() == 66,
            s@[0] == '0',
            s@[1] == 'x',
            out@.len() == j,
            forall|k: int|
                0 <= k < 2 * j ==> is_hex_digit(#[trigger] s@[2 + k]),
            forall|k: int|
                0 <= k < j ==> out@[k] == (hex_val(s@[2 + 2 * k]) * 16 + hex_val(
                    s@[2 + 2 * k + 1],
                )) as u8,
        decreases 32 - j,
    {
        let hi = match hex_digit_value(s.get_char(2 + 2 * j)) {
            Some(v) => v,
            None => {
                proof {
                    assert(!is_hex_digit(s@[2 + 2 * j]));
                }
                return Err(WalletError::InvalidWalletFile);
            },
        };
        let lo = match hex_digit_value(s.get_char(2 + 2 * j + 1)) {
            Some(v) => v,
            None => {
                proof {
                    assert(!is_hex_digit(s@[2 + 2 * j + 1]));
                }
                return Err(WalletError::InvalidWalletFile);
            },
        };
        out.push(hi * 16 + lo);
        proof {
            assert forall|k: int| 0 <= k < 2 * (j + 1) implies is_hex_digit(#[trigger] s@[2
                + k]) by {
                if k == 2 * j {
                    assert(is_hex_digit(s@[2 + 2 * j as int]));
                } else if k == 2 * j + 1 {
                    assert(is_hex_digit(s@[2 + 2 * j + 1]));
                }
            }
        }
        j += 1;
    }
    proof {
        assert forall|i: int| 2 <= i < 66 implies is_hex_digit(#[trigger] s@[i]) by {
            assert(is_hex_digit(s@[2 + (i - 2)]));
        }
        assert(out@ =~= seed_bytes_of(s@));
    }
    Ok(out)
}

/// Loads the seed from the text of a wallet key file: the JSON object's
/// `secretSeed` member must be `"0x"` + 64 hex digits, and then the seed
/// is those 32 bytes. Every other text is an invalid wallet file.
pub fn load_seed_from_json(content: &str) -> (r: Result<Vec<u8>, WalletError>)
    ensures
        ({
            let f = json_string_field(content@, ("secretSeed")@);
            match r {
                Ok(b) => f is Some && is_hex_seed_string(f.unwrap()) && b@ == seed_bytes_of(
                    f.unwrap(),
                ) && b@.len() == 32,
                Err(e) => e == WalletError::InvalidWalletFile && (f is Some ==> !is_hex_seed_string(
                    f.unwrap(),
                )),
            }
        }),
{
    match get_json_string_field(content, "secretSeed") {
        None => Err(WalletError::InvalidWalletFile),
        Some(s) => decode_hex_seed(s.as_str()),
    }
}

} // verus!
