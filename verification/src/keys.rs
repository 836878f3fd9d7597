//! Key files: raw bytes of exactly one key's length.
use crate::text;
use vstd::prelude::*;

verus! {

/// Name of the identity key file inside the data dir.
pub const SECRET_KEY_FILE: &'static str = "secret_key";

/// Size of a stored identity key in bytes.
pub const SECRET_KEY_LEN: usize = 32;

/// Name of the ledger key file inside the data dir.
pub const LEDGER_KEY_FILE: &'static str = "ledger_key";

/// Size of a stored ledger key in bytes.
pub const LEDGER_KEY_LEN: usize = 32;

/// The bytes as a key; none when there are not exactly as many.
fn exact_key(bytes: &Vec<u8>) -> (r: Option<[u8; 32]>)
    ensures
        match r {
            Some(key) => key@ == bytes@,
            None => bytes@.len() != 32,
        },
{
    if bytes.len() != 32 {
        return None;
    }
    let mut key: [u8; 32] = [0u8; 32];
    let mut i: usize = 0;
    while i < 32
        invariant
            i <= 32,
            bytes@.len() == 32,
            forall|j: int| 0 <= j < i ==> #[trigger] key@[j] == bytes@[j],
        decreases 32 - i,
    {
        key[i] = bytes[i];
        i = i + 1;
    }
    assert(key@ =~= bytes@);
    Some(key)
}

/// Read a stored identity key.
pub fn read_secret_key(bytes: &Vec<u8>) -> (r: Result<[u8; 32], String>)
    ensures
        match r {
            Ok(key) => key@ == bytes@,
            Err(m) => bytes@.len() != SECRET_KEY_LEN && m@
                == "secret key file must contain exactly 32 bytes, found "@ + text::decimal(
                bytes@.len(),
            ),
        },
{
    match exact_key(bytes) {
        Some(key) => Ok(key),
        None => {
            let mut m: String = "secret key file must contain exactly 32 bytes, found ".to_owned();
            m.append(text::u64_text(bytes.len() as u64).as_str());
            Err(m)
        },
    }
}

/// Read a stored ledger key.
pub fn read_ledger_key(bytes: &Vec<u8>) -> (r: Result<[u8; 32], String>)
    ensures
        match r {
            Ok(key) => key@ == bytes@,
            Err(m) => bytes@.len() != LEDGER_KEY_LEN && m@
                == "ledger key file must contain exactly 32 bytes, found "@ + text::decimal(
                bytes@.len(),
            ),
        },
{
    match exact_key(bytes) {
        Some(key) => Ok(key),
        None => {
            let mut m: String = "ledger key file must contain exactly 32 bytes, found ".to_owned();
            m.append(text::u64_text(bytes.len() as u64).as_str());
            Err(m)
        },
    }
}

/// Read the ledger key that must be there already. `stored` is none when the
/// file at `path` does not exist; no key is made then.
pub fn load_existing_ledger_key(path: &str, stored: &Option<Vec<u8>>) -> (r: Result<
    [u8; 32],
    String,
>)
    ensures
        match *stored {
            None => r matches Err(m) && m@ == "no ledger key at "@ + path@
                + "; run `cawala-node ledger init` (or `init`) first — claim-export never creates a ledger key"@,
            Some(bytes) => match r {
                Ok(key) => key@ == bytes@,
                Err(m) => bytes@.len() != LEDGER_KEY_LEN && m@ == path@
                    + " must contain exactly 32 ledger-key bytes, found "@ + text::decimal(
                    bytes@.len(),
                ),
            },
        },
{
    match stored {
        None => Err(
            text::between(
                "no ledger key at ",
                path,
                "; run `cawala-node ledger init` (or `init`) first — claim-export never creates a ledger key",
            ),
        ),
        Some(bytes) => match exact_key(bytes) {
            Some(key) => Ok(key),
            None => {
                let mut m: String = path.to_owned();
                m.append(" must contain exactly 32 ledger-key bytes, found ");
                m.append(text::u64_text(bytes.len() as u64).as_str());
                Err(m)
            },
        },
    }
}

/// A key file is its key's bytes, and exactly as many: what holds another number of
/// bytes is refused, whichever key it is.
pub proof fn law_key_files_hold_one_key(
    path: &str,
    bytes: Vec<u8>,
    secret: Result<[u8; 32], String>,
    ledger: Result<[u8; 32], String>,
    existing: Result<[u8; 32], String>,
    missing: Result<[u8; 32], String>,
)
    requires
        call_ensures(read_secret_key, (&bytes,), secret),
        call_ensures(read_ledger_key, (&bytes,), ledger),
        call_ensures(load_existing_ledger_key, (path, &Some(bytes)), existing),
        call_ensures(load_existing_ledger_key, (path, &None), missing),
    ensures
        secret is Ok <==> bytes@.len() == 32,
        ledger is Ok <==> bytes@.len() == 32,
        existing is Ok <==> bytes@.len() == 32,
        missing is Err,
        secret matches Ok(key) ==> key@ == bytes@,
        ledger matches Ok(key) ==> key@ == bytes@,
        existing matches Ok(key) ==> key@ == bytes@,
{
}

} // verus!
